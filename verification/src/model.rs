//! The records that the core keeps and the values that pass its boundary.

use vstd::prelude::*;
use crate::catalog::{copy_tags, GroupInfo, Permission, PermissionGroupTag};
use crate::scope::{Lineage, ScopeLevel};

verus! {

/// The single operation that a restricted credential was issued for.
#[derive(Clone, Copy, Debug, PartialEq, Eq, Structural)]
pub enum TokenPurpose {
    AcceptInvite,
    MerchantSelect,
    ResetPassword,
    VerifyEmail,
}

/// Whether a binding is still an open invitation.
#[derive(Clone, Copy, Debug, PartialEq, Eq, Structural)]
pub enum BindingStatus {
    Invited,
    Active,
}

/// The authenticated caller as the core receives it.
#[derive(Clone, Copy, Debug, PartialEq, Eq)]
pub struct Principal {
    pub user_id: u64,
    pub role_id: u64,
    pub lineage: Lineage,
    /// `None` for a full session, otherwise the one purpose of the
    /// credential.
    pub token_purpose: Option<TokenPurpose>,
}

/// A role definition.
#[derive(Debug)]
pub struct Role {
    pub role_id: u64,
    pub name: String,
    /// The group tags of the role, each once, in the order of their
    /// ordinals.
    pub groups: Vec<PermissionGroupTag>,
    pub scope_level: ScopeLevel,
    pub lineage: Lineage,
    /// The principal that created the role; `None` for a role that was
    /// installed before any principal existed.
    pub created_by: Option<u64>,
    pub created_at: u64,
    pub updated_at: u64,
}

/// What a role says, with its texts and lists taken as values.
pub struct RoleView {
    pub role_id: u64,
    pub name: Seq<char>,
    pub groups: Seq<PermissionGroupTag>,
    pub scope_level: ScopeLevel,
    pub lineage: Lineage,
    pub created_by: Option<u64>,
    pub created_at: u64,
    pub updated_at: u64,
}

impl View for Role {
    type V = RoleView;

    open spec fn view(&self) -> RoleView {
        RoleView {
            role_id: self.role_id,
            name: self.name@,
            groups: self.groups@,
            scope_level: self.scope_level,
            lineage: self.lineage,
            created_by: self.created_by,
            created_at: self.created_at,
            updated_at: self.updated_at,
        }
    }
}

impl Role {
    /// A copy of the role.
    pub fn duplicate(&self) -> (r: Role)
        ensures
            r@ == self@,
    {
        Role {
            role_id: self.role_id,
            name: self.name.clone(),
            groups: copy_tags(&self.groups),
            scope_level: self.scope_level,
            lineage: self.lineage,
            created_by: self.created_by,
            created_at: self.created_at,
            updated_at: self.updated_at,
        }
    }
}

/// The binding of a user to a role at one place of the hierarchy.
#[derive(Clone, Copy, Debug, PartialEq, Eq)]
pub struct UserRole {
    pub user_id: u64,
    pub role_id: u64,
    pub lineage: Lineage,
    pub status: BindingStatus,
    pub invited_by: u64,
    pub created_at: u64,
    pub updated_at: u64,
}

/// What is asked for when a role is created.
#[derive(Debug)]
pub struct CreateRoleRequest {
    pub name: String,
    pub group_tags: Vec<PermissionGroupTag>,
    pub scope_level: ScopeLevel,
    pub lineage: Lineage,
}

/// The changes asked for on a role. A field that is `None` is left alone.
#[derive(Debug)]
pub struct UpdateRoleRequest {
    pub name: Option<String>,
    pub group_tags: Option<Vec<PermissionGroupTag>>,
    /// Present only in a request that tries to move the role to another
    /// level, which no request may.
    pub scope_level: Option<ScopeLevel>,
}

/// Names the role to read.
#[derive(Clone, Copy, Debug, PartialEq, Eq)]
pub struct GetRoleRequest {
    pub role_id: u64,
}

/// Names a user, a role and the place of the binding between them.
#[derive(Clone, Copy, Debug, PartialEq, Eq)]
pub struct UpdateUserRoleRequest {
    pub user_id: u64,
    pub role_id: u64,
    pub lineage: Lineage,
}

/// Names the user to invite, the role offered and the place.
#[derive(Clone, Copy, Debug, PartialEq, Eq)]
pub struct InviteUserRequest {
    pub user_id: u64,
    pub role_id: u64,
    pub lineage: Lineage,
}

/// Names the binding to remove.
#[derive(Clone, Copy, Debug, PartialEq, Eq)]
pub struct DeleteUserRoleRequest {
    pub user_id: u64,
    pub lineage: Lineage,
}

/// The invitee's choice among the candidate merchants.
#[derive(Clone, Copy, Debug, PartialEq, Eq)]
pub struct MerchantSelectRequest {
    pub merchant_id: u64,
}

/// The effective rights of a principal.
#[derive(Debug)]
pub struct Resolved {
    pub permissions: Vec<Permission>,
    pub group_tags: Vec<PermissionGroupTag>,
}

/// The part of a role that a session refresh needs.
#[derive(Debug)]
pub struct RoleSummary {
    pub scope_level: ScopeLevel,
    pub group_tags: Vec<PermissionGroupTag>,
}

/// A role together with what the catalog says of its groups.
pub struct RoleDetails {
    pub role: Role,
    pub groups: Vec<GroupInfo>,
    /// Whether the reader may grant the role to a user that it invites.
    pub is_invitable: bool,
}

/// One line of a listing of users.
#[derive(Clone, Copy, Debug, PartialEq, Eq)]
pub struct UserSummary {
    pub user_id: u64,
    pub role_id: u64,
    pub lineage: Lineage,
    pub status: BindingStatus,
}

/// What the token issuer signs for a full session.
#[derive(Debug)]
pub struct SessionDescriptor {
    pub user_id: u64,
    pub role_id: u64,
    pub lineage: Lineage,
    pub permissions: Vec<Permission>,
    /// Always `None`: a session is bound to no single purpose.
    pub purpose: Option<TokenPurpose>,
}

/// What the token issuer signs for the step between accepting an
/// invitation and choosing a merchant.
#[derive(Debug)]
pub struct IntermediateTokenDescriptor {
    pub user_id: u64,
    pub purpose: TokenPurpose,
    pub candidates: Vec<u64>,
}

/// The outcome of accepting an invitation.
#[derive(Debug)]
pub enum AcceptInvitationResponse {
    /// The invitations lay under one merchant and are active now.
    Active(SessionDescriptor),
    /// The invitations lie under several merchants: one has to be chosen.
    PendingMerchantSelect(IntermediateTokenDescriptor),
}

} // verus!
