//! The failures that the authorization core reports.

use vstd::prelude::*;

verus! {

/// Every way in which a request can be turned down. Each kind is reported
/// to the caller as it is; none is downgraded to success.
#[derive(Clone, Copy, Debug, PartialEq, Eq, Structural)]
pub enum AuthzError {
    /// The identifiers of a lineage do not match the scope level.
    InvalidScope,
    /// A group tag is not defined by the permission catalog.
    UnknownPermissionGroup,
    /// The caller's scope does not dominate what it tries to act on, or the
    /// caller lacks the permission that the operation asks for.
    InsufficientPrivilege,
    /// The request tries to change a field that is fixed at creation.
    ImmutableField,
    /// The role or binding does not exist where the caller can see it.
    NotFound,
    /// The caller's own role does not exist any more.
    RoleNotFound,
    /// The credential was issued for another purpose than the operation.
    InvalidTokenPurpose,
    /// The chosen merchant is not among the candidates.
    InvalidSelection,
    /// A binding for this user and lineage is already there.
    AlreadyExists,
    /// The exchange that the credential stands for was completed before.
    AlreadyProcessed,
    /// The storage collaborator could not serve the request; safe to retry.
    StorageUnavailable,
    /// The permission catalog contradicts itself.
    ConfigurationError,
}

impl AuthzError {
    /// Only a storage outage is worth a retry by the caller.
    pub open spec fn retryable(self) -> bool {
        self == AuthzError::StorageUnavailable
    }

    /// Computes [`AuthzError::retryable`].
    pub fn is_retryable(self) -> (b: bool)
        ensures
            b == self.retryable(),
    {
        match self {
            AuthzError::StorageUnavailable => true,
            _ => false,
        }
    }

    /// The position of the kind in the list above. Two kinds never share a
    /// position, so a caller can map each one to a status of its own.
    pub open spec fn code(self) -> nat {
        match self {
            AuthzError::InvalidScope => 0,
            AuthzError::UnknownPermissionGroup => 1,
            AuthzError::InsufficientPrivilege => 2,
            AuthzError::ImmutableField => 3,
            AuthzError::NotFound => 4,
            AuthzError::RoleNotFound => 5,
            AuthzError::InvalidTokenPurpose => 6,
            AuthzError::InvalidSelection => 7,
            AuthzError::AlreadyExists => 8,
            AuthzError::AlreadyProcessed => 9,
            AuthzError::StorageUnavailable => 10,
            AuthzError::ConfigurationError => 11,
        }
    }

    /// Computes [`AuthzError::code`].
    pub fn status_code(self) -> (c: u8)
        ensures
            c == self.code(),
    {
        match self {
            AuthzError::InvalidScope => 0,
            AuthzError::UnknownPermissionGroup => 1,
            AuthzError::InsufficientPrivilege => 2,
            AuthzError::ImmutableField => 3,
            AuthzError::NotFound => 4,
            AuthzError::RoleNotFound => 5,
            AuthzError::InvalidTokenPurpose => 6,
            AuthzError::InvalidSelection => 7,
            AuthzError::AlreadyExists => 8,
            AuthzError::AlreadyProcessed => 9,
            AuthzError::StorageUnavailable => 10,
            AuthzError::ConfigurationError => 11,
        }
    }
}

/// Distinct failures have distinct codes.
pub proof fn codes_are_distinct(a: AuthzError, b: AuthzError)
    requires
        a.code() == b.code(),
    ensures
        a == b,
{
}

} // verus!
