//! Scope levels, lineages and the dominance rule between them.

use vstd::prelude::*;

verus! {

/// How far a role reaches inside the tenant hierarchy.
#[derive(Clone, Copy, Debug, PartialEq, Eq, Structural)]
pub enum ScopeLevel {
    Organization,
    Merchant,
    Profile,
}

impl ScopeLevel {
    /// Breadth of the level: a broader level has a larger number.
    pub open spec fn breadth(self) -> nat {
        match self {
            ScopeLevel::Organization => 2,
            ScopeLevel::Merchant => 1,
            ScopeLevel::Profile => 0,
        }
    }

    /// Position of the level when levels are listed broadest first.
    pub open spec fn position(self) -> nat {
        (2 - self.breadth()) as nat
    }

    /// Whether this level is at least as broad as `other`.
    pub open spec fn covers(self, other: ScopeLevel) -> bool {
        self.breadth() >= other.breadth()
    }

    /// Computes [`ScopeLevel::breadth`].
    pub fn rank(self) -> (r: u8)
        ensures
            r == self.breadth(),
    {
        match self {
            ScopeLevel::Organization => 2,
            ScopeLevel::Merchant => 1,
            ScopeLevel::Profile => 0,
        }
    }

    /// Computes [`ScopeLevel::covers`].
    pub fn is_at_least(self, other: ScopeLevel) -> (b: bool)
        ensures
            b == self.covers(other),
    {
        self.rank() >= other.rank()
    }
}

/// A place in the tenant hierarchy: an organization, optionally narrowed to
/// one of its merchants, optionally narrowed further to one profile.
#[derive(Clone, Copy, Debug, PartialEq, Eq)]
pub struct Lineage {
    pub org_id: u64,
    pub merchant_id: Option<u64>,
    pub profile_id: Option<u64>,
}

impl Lineage {
    /// The level that the identifiers present in the lineage spell out.
    pub open spec fn shape(self) -> ScopeLevel {
        if self.merchant_id is None {
            ScopeLevel::Organization
        } else if self.profile_id is None {
            ScopeLevel::Merchant
        } else {
            ScopeLevel::Profile
        }
    }

    /// A profile is always named together with its merchant.
    pub open spec fn well_formed(self) -> bool {
        self.profile_id is Some ==> self.merchant_id is Some
    }

    /// The lineage carries exactly the identifiers that `level` asks for.
    pub open spec fn fits(self, level: ScopeLevel) -> bool {
        self.well_formed() && self.shape() == level
    }

    /// The lineage lies inside what a holder placed at `holder` and scoped at
    /// `level` reaches: the same organization, and below organization level
    /// also the holder's own merchant, and at profile level its own profile.
    pub open spec fn within(self, level: ScopeLevel, holder: Lineage) -> bool {
        &&& self.org_id == holder.org_id
        &&& level != ScopeLevel::Organization ==> holder.merchant_id is Some && self.merchant_id
            == holder.merchant_id
        &&& level == ScopeLevel::Profile ==> holder.profile_id is Some && self.profile_id
            == holder.profile_id
    }

    /// Field by field equality.
    pub fn same_as(&self, other: &Lineage) -> (b: bool)
        ensures
            b == (*self == *other),
    {
        self.org_id == other.org_id && same_id(self.merchant_id, other.merchant_id) && same_id(
            self.profile_id,
            other.profile_id,
        )
    }

    /// Computes [`Lineage::fits`].
    pub fn matches_level(&self, level: ScopeLevel) -> (b: bool)
        ensures
            b == self.fits(level),
    {
        match level {
            ScopeLevel::Organization => self.merchant_id.is_none() && self.profile_id.is_none(),
            ScopeLevel::Merchant => self.merchant_id.is_some() && self.profile_id.is_none(),
            ScopeLevel::Profile => self.merchant_id.is_some() && self.profile_id.is_some(),
        }
    }

    /// Computes [`Lineage::within`].
    pub fn is_within(&self, level: ScopeLevel, holder: &Lineage) -> (b: bool)
        ensures
            b == self.within(level, *holder),
    {
        if self.org_id != holder.org_id {
            return false;
        }
        match level {
            ScopeLevel::Organization => true,
            ScopeLevel::Merchant => holder.merchant_id.is_some() && same_id(
                self.merchant_id,
                holder.merchant_id,
            ),
            ScopeLevel::Profile => holder.merchant_id.is_some() && same_id(
                self.merchant_id,
                holder.merchant_id,
            ) && holder.profile_id.is_some() && same_id(self.profile_id, holder.profile_id),
        }
    }
}

/// Equality of two optional identifiers.
pub fn same_id(a: Option<u64>, b: Option<u64>) -> (r: bool)
    ensures
        r == (a == b),
{
    match (a, b) {
        (None, None) => true,
        (Some(x), Some(y)) => x == y,
        _ => false,
    }
}

/// The dominance rule: a holder scoped at `holder_level` and placed at
/// `holder` may view or grant what is scoped at `target_level` and placed
/// at `target` when its level is at least as broad and the target lies
/// within its reach.
pub open spec fn dominates(
    holder_level: ScopeLevel,
    holder: Lineage,
    target_level: ScopeLevel,
    target: Lineage,
) -> bool {
    holder_level.covers(target_level) && target.within(holder_level, holder)
}

/// Computes [`dominates`].
pub fn check_dominates(
    holder_level: ScopeLevel,
    holder: &Lineage,
    target_level: ScopeLevel,
    target: &Lineage,
) -> (b: bool)
    ensures
        b == dominates(holder_level, *holder, target_level, *target),
{
    holder_level.is_at_least(target_level) && target.is_within(holder_level, holder)
}

/// Dominance is reflexive on every lineage that fits its level.
pub proof fn dominance_reflexive(level: ScopeLevel, place: Lineage)
    requires
        place.fits(level),
    ensures
        dominates(level, place, level, place),
{
}

/// Dominance is transitive: what a dominated holder dominates, the
/// dominating holder dominates too.
pub proof fn dominance_transitive(
    a_level: ScopeLevel,
    a: Lineage,
    b_level: ScopeLevel,
    b: Lineage,
    c_level: ScopeLevel,
    c: Lineage,
)
    requires
        dominates(a_level, a, b_level, b),
        dominates(b_level, b, c_level, c),
    ensures
        dominates(a_level, a, c_level, c),
{
}

/// Dominance is antisymmetric: two places that fit their levels and
/// dominate each other are the same place at the same level.
pub proof fn dominance_antisymmetric(a_level: ScopeLevel, a: Lineage, b_level: ScopeLevel, b: Lineage)
    requires
        a.fits(a_level),
        b.fits(b_level),
        dominates(a_level, a, b_level, b),
        dominates(b_level, b, a_level, a),
    ensures
        a_level == b_level,
        a == b,
{
}

} // verus!
