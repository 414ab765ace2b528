//! The rules of the core, stated over sequences of records.

use vstd::prelude::*;
use crate::catalog::Catalog;
use crate::model::{BindingStatus, Role, RoleView, UserRole, UserSummary};
use crate::names::{
    bytes_of, precedes, precedes_chain, precedes_one_way, precedes_total, Side, side_of_names,
};
use crate::scope::{dominates, Lineage, ScopeLevel};

verus! {

/// Some role of `roles` has the identifier.
pub open spec fn has_role(roles: Seq<Role>, id: u64) -> bool {
    exists|i: int| 0 <= i < roles.len() && (#[trigger] roles[i]).role_id == id
}

/// The role of `roles` with the identifier, where there is one.
pub open spec fn role_by_id(roles: Seq<Role>, id: u64) -> Role {
    let i = choose|i: int| 0 <= i < roles.len() && (#[trigger] roles[i]).role_id == id;
    roles[i]
}

/// A role is sound: its lineage names what its level asks for and the
/// catalog defines each of its group tags.
pub open spec fn role_ok(role: Role, catalog: Catalog) -> bool {
    role.lineage.fits(role.scope_level) && catalog.knows_all(role.groups@)
}

/// The roles are sound, and their identifiers rise in the order in which
/// the roles were made and lie below the next identifier to hand out.
pub open spec fn roles_wf(roles: Seq<Role>, catalog: Catalog, next_id: u64) -> bool {
    &&& forall|i: int|
        0 <= i < roles.len() ==> role_ok(#[trigger] roles[i], catalog) && roles[i].role_id
            < next_id
    &&& forall|i: int, j: int|
        0 <= i < j < roles.len() ==> (#[trigger] roles[i]).role_id < (#[trigger] roles[j]).role_id
}

/// A role that stands in a sound list is the one found under its
/// identifier.
pub proof fn role_lookup(roles: Seq<Role>, catalog: Catalog, next_id: u64, i: int)
    requires
        roles_wf(roles, catalog, next_id),
        0 <= i < roles.len(),
    ensures
        has_role(roles, roles[i].role_id),
        role_by_id(roles, roles[i].role_id) == roles[i],
{
    let id = roles[i].role_id;
    let k = choose|k: int| 0 <= k < roles.len() && (#[trigger] roles[k]).role_id == id;
    if k < i {
        assert(roles[k].role_id < roles[i].role_id);
    } else if i < k {
        assert(roles[i].role_id < roles[k].role_id);
    }
}

/// The binding concerns this user at this place.
pub open spec fn binds(b: UserRole, user_id: u64, place: Lineage) -> bool {
    b.user_id == user_id && b.lineage == place
}

/// Some binding of `bindings` concerns the user at the place.
pub open spec fn has_binding(bindings: Seq<UserRole>, user_id: u64, place: Lineage) -> bool {
    exists|i: int| 0 <= i < bindings.len() && binds(#[trigger] bindings[i], user_id, place)
}

/// Where the binding of the user at the place stands, where there is one.
pub open spec fn binding_index(bindings: Seq<UserRole>, user_id: u64, place: Lineage) -> int {
    choose|i: int| 0 <= i < bindings.len() && binds(#[trigger] bindings[i], user_id, place)
}

/// The binding of the user at the place, where there is one.
pub open spec fn binding_of(bindings: Seq<UserRole>, user_id: u64, place: Lineage) -> UserRole {
    bindings[binding_index(bindings, user_id, place)]
}

/// No user is bound twice at one place.
pub open spec fn one_binding_per_place(bindings: Seq<UserRole>) -> bool {
    forall|i: int, j: int|
        0 <= i < bindings.len() && 0 <= j < bindings.len() && i != j ==> !binds(
            #[trigger] bindings[i],
            (#[trigger] bindings[j]).user_id,
            bindings[j].lineage,
        )
}

/// Every binding names a role that exists and whose level its lineage
/// fits, and no user is bound twice at one place.
pub open spec fn bindings_wf(bindings: Seq<UserRole>, roles: Seq<Role>) -> bool {
    &&& forall|i: int|
        0 <= i < bindings.len() ==> has_role(roles, (#[trigger] bindings[i]).role_id)
            && bindings[i].lineage.fits(role_by_id(roles, bindings[i].role_id).scope_level)
    &&& one_binding_per_place(bindings)
}

/// A binding that stands in a sound list is the one found under its user
/// and place.
pub proof fn binding_lookup(bindings: Seq<UserRole>, i: int)
    requires
        one_binding_per_place(bindings),
        0 <= i < bindings.len(),
    ensures
        has_binding(bindings, bindings[i].user_id, bindings[i].lineage),
        binding_index(bindings, bindings[i].user_id, bindings[i].lineage) == i,
        binding_of(bindings, bindings[i].user_id, bindings[i].lineage) == bindings[i],
{
    let u = bindings[i].user_id;
    let l = bindings[i].lineage;
    assert(binds(bindings[i], u, l));
    let k = binding_index(bindings, u, l);
    if k != i {
        assert(!binds(bindings[k], bindings[i].user_id, bindings[i].lineage));
    }
}

/// No role was removed, and each one kept its identifier, its level and
/// its place.
pub open spec fn keeps_scopes(before: Seq<Role>, after: Seq<Role>) -> bool {
    &&& before.len() <= after.len()
    &&& forall|i: int|
        0 <= i < before.len() ==> {
            &&& (#[trigger] after[i]).role_id == before[i].role_id
            &&& after[i].scope_level == before[i].scope_level
            &&& after[i].lineage == before[i].lineage
        }
}

/// No binding that was active is an invitation afterwards.
pub open spec fn keeps_active(before: Seq<UserRole>, after: Seq<UserRole>) -> bool {
    forall|i: int, j: int|
        0 <= i < before.len() && 0 <= j < after.len() && (#[trigger] before[i]).status
            == BindingStatus::Active && binds(
            #[trigger] after[j],
            before[i].user_id,
            before[i].lineage,
        ) ==> after[j].status == BindingStatus::Active
}

/// The roles that a holder of `level` at `place` does not dominate are
/// what they were, and every role that was added is one that it dominates.
pub open spec fn roles_confined(
    before: Seq<Role>,
    after: Seq<Role>,
    level: ScopeLevel,
    place: Lineage,
) -> bool {
    &&& before.len() <= after.len()
    &&& forall|i: int|
        0 <= i < before.len() && !dominates(
            level,
            place,
            (#[trigger] before[i]).scope_level,
            before[i].lineage,
        ) ==> after[i] == before[i]
    &&& forall|i: int|
        before.len() <= i < after.len() ==> dominates(
            level,
            place,
            (#[trigger] after[i]).scope_level,
            after[i].lineage,
        )
}

/// The bindings at places that a holder of `level` at `place` does not
/// dominate are what they were: none was removed, changed or added.
pub open spec fn bindings_confined(
    before: Seq<UserRole>,
    after: Seq<UserRole>,
    level: ScopeLevel,
    place: Lineage,
) -> bool {
    &&& forall|i: int|
        0 <= i < before.len() && !dominates(
            level,
            place,
            (#[trigger] before[i]).lineage.shape(),
            before[i].lineage,
        ) ==> after.contains(before[i])
    &&& forall|j: int|
        0 <= j < after.len() && !dominates(
            level,
            place,
            (#[trigger] after[j]).lineage.shape(),
            after[j].lineage,
        ) ==> before.contains(after[j])
}

/// The bindings of every user but `user_id` are what they were.
pub open spec fn others_untouched(before: Seq<UserRole>, after: Seq<UserRole>, user_id: u64) -> bool {
    &&& before.len() == after.len()
    &&& forall|i: int|
        0 <= i < before.len() && (#[trigger] before[i]).user_id != user_id ==> after[i]
            == before[i]
    &&& forall|i: int|
        0 <= i < before.len() ==> (#[trigger] after[i]).user_id == before[i].user_id
}


/// Bindings that named a sound role keep doing so when roles are added or
/// changed without touching identifiers, levels and places.
pub proof fn bindings_stay_sound(
    bindings: Seq<UserRole>,
    before: Seq<Role>,
    after: Seq<Role>,
    catalog: Catalog,
    next_before: u64,
    next_after: u64,
)
    requires
        roles_wf(before, catalog, next_before),
        roles_wf(after, catalog, next_after),
        keeps_scopes(before, after),
        bindings_wf(bindings, before),
    ensures
        bindings_wf(bindings, after),
{
    assert forall|i: int| 0 <= i < bindings.len() implies has_role(
        after,
        (#[trigger] bindings[i]).role_id,
    ) && bindings[i].lineage.fits(role_by_id(after, bindings[i].role_id).scope_level) by {
        let id = bindings[i].role_id;
        let k = choose|k: int| 0 <= k < before.len() && (#[trigger] before[k]).role_id == id;
        role_lookup(before, catalog, next_before, k);
        assert(after[k].role_id == id);
        role_lookup(after, catalog, next_after, k);
    }
}

/// The order of a listing of roles: broader levels first, within a level
/// by name, and roles of one level and name by identifier.
pub open spec fn role_before(a: RoleView, b: RoleView) -> bool {
    let pa = a.scope_level.position();
    let pb = b.scope_level.position();
    let na = bytes_of(a.name);
    let nb = bytes_of(b.name);
    pa < pb || (pa == pb && (precedes(na, nb) || (na == nb && a.role_id < b.role_id)))
}

/// Each role of the list comes before all that follow it.
pub open spec fn roles_sorted(list: Seq<Role>) -> bool {
    forall|x: int, y: int|
        0 <= x < y < list.len() ==> role_before((#[trigger] list[x])@, (#[trigger] list[y])@)
}

/// The order of roles is transitive.
pub proof fn role_before_chain(a: RoleView, b: RoleView, c: RoleView)
    requires
        role_before(a, b),
        role_before(b, c),
    ensures
        role_before(a, c),
{
    let na = bytes_of(a.name);
    let nb = bytes_of(b.name);
    let nc = bytes_of(c.name);
    if precedes(na, nb) && precedes(nb, nc) {
        precedes_chain(na, nb, nc);
    }
}

/// Of two roles with different identifiers exactly one comes first.
pub proof fn role_before_total(a: RoleView, b: RoleView)
    requires
        a.role_id != b.role_id,
    ensures
        role_before(a, b) != role_before(b, a),
{
    let na = bytes_of(a.name);
    let nb = bytes_of(b.name);
    precedes_total(na, nb);
    if precedes(na, nb) {
        precedes_one_way(na, nb);
    }
    if precedes(nb, na) {
        precedes_one_way(nb, na);
    }
}

/// Computes [`role_before`].
pub fn role_comes_before(a: &Role, b: &Role) -> (r: bool)
    ensures
        r == role_before(a@, b@),
{
    let ra = a.scope_level.rank();
    let rb = b.scope_level.rank();
    if ra != rb {
        return ra > rb;
    }
    proof {
        let na = bytes_of(a@.name);
        let nb = bytes_of(b@.name);
        if precedes(na, nb) {
            precedes_one_way(na, nb);
        }
    }
    match side_of_names(&a.name, &b.name) {
        Side::Before => true,
        Side::Same => a.role_id < b.role_id,
        Side::After => false,
    }
}

/// Some role of `list` says what `v` says.
pub open spec fn role_listed(list: Seq<Role>, v: RoleView) -> bool {
    exists|x: int| 0 <= x < list.len() && (#[trigger] list[x])@ == v
}

/// Some role of `roles` that a holder of `level` at `place` dominates says
/// what `v` says.
pub open spec fn role_offered(roles: Seq<Role>, level: ScopeLevel, place: Lineage, v: RoleView) -> bool {
    exists|k: int|
        0 <= k < roles.len() && (#[trigger] roles[k])@ == v && dominates(
            level,
            place,
            roles[k].scope_level,
            roles[k].lineage,
        )
}

/// The listing of the roles that a holder of `level` at `place`
/// dominates: each of them once, in the order of [`role_before`], and
/// nothing else.
pub open spec fn lists_dominated_roles(
    list: Seq<Role>,
    roles: Seq<Role>,
    level: ScopeLevel,
    place: Lineage,
) -> bool {
    &&& roles_sorted(list)
    &&& forall|x: int|
        0 <= x < list.len() ==> role_offered(roles, level, place, (#[trigger] list[x])@)
    &&& forall|k: int|
        0 <= k < roles.len() && dominates(
            level,
            place,
            (#[trigger] roles[k]).scope_level,
            roles[k].lineage,
        ) ==> role_listed(list, roles[k]@)
}

/// A listing stays one when a role that the holder does not dominate
/// joins the roles.
pub proof fn role_listing_skips(
    list: Seq<Role>,
    roles: Seq<Role>,
    role: Role,
    level: ScopeLevel,
    place: Lineage,
)
    requires
        lists_dominated_roles(list, roles, level, place),
        !dominates(level, place, role.scope_level, role.lineage),
    ensures
        lists_dominated_roles(list, roles.push(role), level, place),
{
    let longer = roles.push(role);
    assert forall|x: int| 0 <= x < list.len() implies role_offered(
        longer,
        level,
        place,
        (#[trigger] list[x])@,
    ) by {
        assert(role_offered(roles, level, place, list[x]@));
        let k = choose|k: int|
            0 <= k < roles.len() && (#[trigger] roles[k])@ == list[x]@ && dominates(
                level,
                place,
                roles[k].scope_level,
                roles[k].lineage,
            );
        assert(longer[k] == roles[k]);
    }
    assert forall|k: int|
        0 <= k < longer.len() && dominates(
            level,
            place,
            (#[trigger] longer[k]).scope_level,
            longer[k].lineage,
        ) implies role_listed(list, longer[k]@) by {
        assert(longer[k] == roles[k]);
    }
}

/// A listing with a copy of a dominated role put in is the listing of
/// the roles with that role added.
pub proof fn role_listing_gains(
    list: Seq<Role>,
    roles: Seq<Role>,
    role: Role,
    copy: Role,
    at: int,
    level: ScopeLevel,
    place: Lineage,
)
    requires
        lists_dominated_roles(list, roles, level, place),
        dominates(level, place, role.scope_level, role.lineage),
        copy@ == role@,
        0 <= at <= list.len(),
        roles_sorted(list.insert(at, copy)),
    ensures
        lists_dominated_roles(list.insert(at, copy), roles.push(role), level, place),
{
    let longer = roles.push(role);
    let after = list.insert(at, copy);
    assert(longer[roles.len() as int] == role);
    assert forall|x: int| 0 <= x < after.len() implies role_offered(
        longer,
        level,
        place,
        (#[trigger] after[x])@,
    ) by {
        if x == at {
            assert(longer[roles.len() as int]@ == after[x]@);
        } else {
            let y = if x < at {
                x
            } else {
                x - 1
            };
            assert(after[x] == list[y]);
            assert(role_offered(roles, level, place, list[y]@));
            let k = choose|k: int|
                0 <= k < roles.len() && (#[trigger] roles[k])@ == list[y]@ && dominates(
                    level,
                    place,
                    roles[k].scope_level,
                    roles[k].lineage,
                );
            assert(longer[k] == roles[k]);
        }
    }
    assert forall|k: int|
        0 <= k < longer.len() && dominates(
            level,
            place,
            (#[trigger] longer[k]).scope_level,
            longer[k].lineage,
        ) implies role_listed(after, longer[k]@) by {
        if k == roles.len() {
            assert(after[at]@ == longer[k]@);
        } else {
            assert(longer[k] == roles[k]);
            assert(role_listed(list, roles[k]@));
            let y = choose|y: int| 0 <= y < list.len() && (#[trigger] list[y])@ == roles[k]@;
            let x = if y < at {
                y
            } else {
                y + 1
            };
            assert(after[x] == list[y]);
        }
    }
}

/// No role of a listing has the identifier of a role that is not among
/// the roles listed.
pub proof fn role_listing_lacks(
    list: Seq<Role>,
    roles: Seq<Role>,
    role: Role,
    level: ScopeLevel,
    place: Lineage,
)
    requires
        lists_dominated_roles(list, roles, level, place),
        forall|k: int| 0 <= k < roles.len() ==> (#[trigger] roles[k]).role_id != role.role_id,
    ensures
        forall|x: int| 0 <= x < list.len() ==> (#[trigger] list[x]).role_id != role.role_id,
{
    assert forall|x: int| 0 <= x < list.len() implies (#[trigger] list[x]).role_id
        != role.role_id by {
        assert(role_offered(roles, level, place, list[x]@));
        let k = choose|k: int|
            0 <= k < roles.len() && (#[trigger] roles[k])@ == list[x]@ && dominates(
                level,
                place,
                roles[k].scope_level,
                roles[k].lineage,
            );
        assert(roles[k].role_id == list[x].role_id);
    }
}

/// Puts a role into a sorted list at its place.
pub fn insert_role(list: &mut Vec<Role>, role: Role) -> (at: usize)
    requires
        roles_sorted(old(list)@),
        forall|x: int| 0 <= x < old(list)@.len() ==> (#[trigger] old(list)@[x]).role_id != role.role_id,
    ensures
        roles_sorted(final(list)@),
        at <= old(list)@.len(),
        final(list)@ == old(list)@.insert(at as int, role),
{
    let mut at: usize = 0;
    while at < list.len() && !role_comes_before(&role, &list[at])
        invariant
            at <= list.len(),
            list@ == old(list)@,
            forall|x: int| 0 <= x < at ==> role_before((#[trigger] list@[x])@, role@),
            forall|x: int| 0 <= x < list@.len() ==> (#[trigger] list@[x]).role_id != role.role_id,
        decreases list.len() - at,
    {
        proof {
            role_before_total(role@, list@[at as int]@);
        }
        at = at + 1;
    }
    let ghost before = list@;
    list.insert(at, role);
    proof {
        let after = list@;
        assert forall|x: int, y: int| 0 <= x < y < after.len() implies role_before(
            (#[trigger] after[x])@,
            (#[trigger] after[y])@,
        ) by {
            if y < at {
                assert(after[x] == before[x] && after[y] == before[y]);
            } else if y == at {
                assert(after[x] == before[x]);
            } else if x == at {
                assert(after[y] == before[y - 1]);
                if y - 1 > at {
                    assert(role_before(before[at as int]@, before[y - 1]@));
                    role_before_chain(role@, before[at as int]@, before[y - 1]@);
                }
            } else if x < at {
                assert(after[x] == before[x] && after[y] == before[y - 1]);
            } else {
                assert(after[x] == before[x - 1] && after[y] == before[y - 1]);
            }
        }
    }
    at
}

/// The number that stands for an optional identifier in the order of
/// lineages: nothing comes before every identifier.
pub open spec fn id_key(id: Option<u64>) -> int {
    match id {
        None => 0,
        Some(v) => v + 1,
    }
}

/// The order of lineages: by organization, then merchant, then profile.
pub open spec fn lineage_before(a: Lineage, b: Lineage) -> bool {
    a.org_id < b.org_id || (a.org_id == b.org_id && (id_key(a.merchant_id) < id_key(b.merchant_id)
        || (id_key(a.merchant_id) == id_key(b.merchant_id) && id_key(a.profile_id) < id_key(
        b.profile_id,
    ))))
}

/// The order of a listing of users: by user, and the bindings of one user
/// by their places.
pub open spec fn summary_before(a: UserSummary, b: UserSummary) -> bool {
    a.user_id < b.user_id || (a.user_id == b.user_id && lineage_before(a.lineage, b.lineage))
}

/// Each line of the list comes before all that follow it.
pub open spec fn summaries_sorted(list: Seq<UserSummary>) -> bool {
    forall|x: int, y: int|
        0 <= x < y < list.len() ==> summary_before(#[trigger] list[x], #[trigger] list[y])
}

/// Whether the first optional identifier comes before the second, after
/// it, or is the same.
fn side_of_ids(a: Option<u64>, b: Option<u64>) -> (s: Side)
    ensures
        s == Side::Before <==> id_key(a) < id_key(b),
        s == Side::Same <==> a == b,
        s == Side::After <==> id_key(a) > id_key(b),
{
    match (a, b) {
        (None, None) => Side::Same,
        (None, Some(_)) => Side::Before,
        (Some(_), None) => Side::After,
        (Some(x), Some(y)) => if x < y {
            Side::Before
        } else if x == y {
            Side::Same
        } else {
            Side::After
        },
    }
}

/// Computes [`lineage_before`].
pub fn lineage_comes_before(a: &Lineage, b: &Lineage) -> (r: bool)
    ensures
        r == lineage_before(*a, *b),
{
    if a.org_id != b.org_id {
        return a.org_id < b.org_id;
    }
    match side_of_ids(a.merchant_id, b.merchant_id) {
        Side::Before => true,
        Side::After => false,
        Side::Same => match side_of_ids(a.profile_id, b.profile_id) {
            Side::Before => true,
            _ => false,
        },
    }
}

/// Computes [`summary_before`].
pub fn summary_comes_before(a: &UserSummary, b: &UserSummary) -> (r: bool)
    ensures
        r == summary_before(*a, *b),
{
    if a.user_id != b.user_id {
        return a.user_id < b.user_id;
    }
    lineage_comes_before(&a.lineage, &b.lineage)
}

/// The line of a listing that stands for a binding.
pub open spec fn summary_of(b: UserRole) -> UserSummary {
    UserSummary { user_id: b.user_id, role_id: b.role_id, lineage: b.lineage, status: b.status }
}

/// The order of lines is transitive.
pub proof fn summary_before_chain(a: UserSummary, b: UserSummary, c: UserSummary)
    requires
        summary_before(a, b),
        summary_before(b, c),
    ensures
        summary_before(a, c),
{
}

/// Of two lines for different users or places exactly one comes first.
pub proof fn summary_before_total(a: UserSummary, b: UserSummary)
    requires
        a.user_id != b.user_id || a.lineage != b.lineage,
    ensures
        summary_before(a, b) != summary_before(b, a),
{
}

/// Puts a line into a sorted list at its place.
pub fn insert_summary(list: &mut Vec<UserSummary>, line: UserSummary) -> (at: usize)
    requires
        summaries_sorted(old(list)@),
        forall|x: int|
            0 <= x < old(list)@.len() ==> (#[trigger] old(list)@[x]).user_id != line.user_id
                || old(list)@[x].lineage != line.lineage,
    ensures
        summaries_sorted(final(list)@),
        at <= old(list)@.len(),
        final(list)@ == old(list)@.insert(at as int, line),
{
    let mut at: usize = 0;
    while at < list.len() && !summary_comes_before(&line, &list[at])
        invariant
            at <= list.len(),
            list@ == old(list)@,
            forall|x: int| 0 <= x < at ==> summary_before(#[trigger] list@[x], line),
            forall|x: int|
                0 <= x < list@.len() ==> (#[trigger] list@[x]).user_id != line.user_id
                    || list@[x].lineage != line.lineage,
        decreases list.len() - at,
    {
        proof {
            summary_before_total(line, list@[at as int]);
        }
        at = at + 1;
    }
    let ghost before = list@;
    list.insert(at, line);
    proof {
        let after = list@;
        assert forall|x: int, y: int| 0 <= x < y < after.len() implies summary_before(
            #[trigger] after[x],
            #[trigger] after[y],
        ) by {
            if y < at {
                assert(after[x] == before[x] && after[y] == before[y]);
            } else if y == at {
                assert(after[x] == before[x]);
            } else if x == at {
                assert(after[y] == before[y - 1]);
                if y - 1 > at {
                    assert(summary_before(before[at as int], before[y - 1]));
                    summary_before_chain(line, before[at as int], before[y - 1]);
                }
            } else if x < at {
                assert(after[x] == before[x] && after[y] == before[y - 1]);
            } else {
                assert(after[x] == before[x - 1] && after[y] == before[y - 1]);
            }
        }
    }
    at
}

/// Some line of `list` is `line`.
pub open spec fn line_listed(list: Seq<UserSummary>, line: UserSummary) -> bool {
    exists|x: int| 0 <= x < list.len() && (#[trigger] list[x]) == line
}

/// `line` stands for some binding of `bindings` at a place that a holder
/// of `level` at `place` dominates.
pub open spec fn line_offered(
    bindings: Seq<UserRole>,
    level: ScopeLevel,
    place: Lineage,
    line: UserSummary,
) -> bool {
    exists|k: int|
        0 <= k < bindings.len() && summary_of(#[trigger] bindings[k]) == line && dominates(
            level,
            place,
            bindings[k].lineage.shape(),
            bindings[k].lineage,
        )
}

/// The listing of the bindings that a holder of `level` at `place`
/// dominates: one line for each of them, in the order of
/// [`summary_before`], and nothing else.
pub open spec fn lists_dominated_bindings(
    list: Seq<UserSummary>,
    bindings: Seq<UserRole>,
    level: ScopeLevel,
    place: Lineage,
) -> bool {
    &&& summaries_sorted(list)
    &&& forall|x: int|
        0 <= x < list.len() ==> line_offered(bindings, level, place, #[trigger] list[x])
    &&& forall|k: int|
        0 <= k < bindings.len() && dominates(
            level,
            place,
            (#[trigger] bindings[k]).lineage.shape(),
            bindings[k].lineage,
        ) ==> line_listed(list, summary_of(bindings[k]))
}

/// A listing stays one when a binding at a place that the holder does
/// not dominate joins the bindings.
pub proof fn line_listing_skips(
    list: Seq<UserSummary>,
    bindings: Seq<UserRole>,
    b: UserRole,
    level: ScopeLevel,
    place: Lineage,
)
    requires
        lists_dominated_bindings(list, bindings, level, place),
        !dominates(level, place, b.lineage.shape(), b.lineage),
    ensures
        lists_dominated_bindings(list, bindings.push(b), level, place),
{
    let longer = bindings.push(b);
    assert forall|x: int| 0 <= x < list.len() implies line_offered(
        longer,
        level,
        place,
        #[trigger] list[x],
    ) by {
        assert(line_offered(bindings, level, place, list[x]));
        let k = choose|k: int|
            0 <= k < bindings.len() && summary_of(#[trigger] bindings[k]) == list[x] && dominates(
                level,
                place,
                bindings[k].lineage.shape(),
                bindings[k].lineage,
            );
        assert(longer[k] == bindings[k]);
    }
    assert forall|k: int|
        0 <= k < longer.len() && dominates(
            level,
            place,
            (#[trigger] longer[k]).lineage.shape(),
            longer[k].lineage,
        ) implies line_listed(list, summary_of(longer[k])) by {
        assert(longer[k] == bindings[k]);
    }
}

/// A listing with the line of a dominated binding put in is the listing
/// of the bindings with that binding added.
pub proof fn line_listing_gains(
    list: Seq<UserSummary>,
    bindings: Seq<UserRole>,
    b: UserRole,
    at: int,
    level: ScopeLevel,
    place: Lineage,
)
    requires
        lists_dominated_bindings(list, bindings, level, place),
        dominates(level, place, b.lineage.shape(), b.lineage),
        0 <= at <= list.len(),
        summaries_sorted(list.insert(at, summary_of(b))),
    ensures
        lists_dominated_bindings(list.insert(at, summary_of(b)), bindings.push(b), level, place),
{
    let longer = bindings.push(b);
    let after = list.insert(at, summary_of(b));
    assert(longer[bindings.len() as int] == b);
    assert forall|x: int| 0 <= x < after.len() implies line_offered(
        longer,
        level,
        place,
        #[trigger] after[x],
    ) by {
        if x == at {
            assert(summary_of(longer[bindings.len() as int]) == after[x]);
        } else {
            let y = if x < at {
                x
            } else {
                x - 1
            };
            assert(after[x] == list[y]);
            assert(line_offered(bindings, level, place, list[y]));
            let k = choose|k: int|
                0 <= k < bindings.len() && summary_of(#[trigger] bindings[k]) == list[y]
                    && dominates(level, place, bindings[k].lineage.shape(), bindings[k].lineage);
            assert(longer[k] == bindings[k]);
        }
    }
    assert forall|k: int|
        0 <= k < longer.len() && dominates(
            level,
            place,
            (#[trigger] longer[k]).lineage.shape(),
            longer[k].lineage,
        ) implies line_listed(after, summary_of(longer[k])) by {
        if k == bindings.len() {
            assert(after[at] == summary_of(longer[k]));
        } else {
            assert(longer[k] == bindings[k]);
            assert(line_listed(list, summary_of(bindings[k])));
            let y = choose|y: int| 0 <= y < list.len() && (#[trigger] list[y]) == summary_of(
                bindings[k],
            );
            let x = if y < at {
                y
            } else {
                y + 1
            };
            assert(after[x] == list[y]);
        }
    }
}

/// No line of a listing is for the user and place of a binding that no
/// binding listed shares them with.
pub proof fn line_listing_lacks(
    list: Seq<UserSummary>,
    bindings: Seq<UserRole>,
    b: UserRole,
    level: ScopeLevel,
    place: Lineage,
)
    requires
        lists_dominated_bindings(list, bindings, level, place),
        forall|k: int| 0 <= k < bindings.len() ==> !binds(#[trigger] bindings[k], b.user_id, b.lineage),
    ensures
        forall|x: int|
            0 <= x < list.len() ==> (#[trigger] list[x]).user_id != b.user_id || list[x].lineage
                != b.lineage,
{
    assert forall|x: int| 0 <= x < list.len() implies (#[trigger] list[x]).user_id != b.user_id
        || list[x].lineage != b.lineage by {
        assert(line_offered(bindings, level, place, list[x]));
        let k = choose|k: int|
            0 <= k < bindings.len() && summary_of(#[trigger] bindings[k]) == list[x] && dominates(
                level,
                place,
                bindings[k].lineage.shape(),
                bindings[k].lineage,
            );
        assert(!binds(bindings[k], b.user_id, b.lineage));
    }
}

/// The binding is an open invitation of the user and, where a merchant
/// was chosen, one under that merchant.
pub open spec fn selected(b: UserRole, user_id: u64, choice: Option<u64>) -> bool {
    &&& b.user_id == user_id
    &&& b.status == BindingStatus::Invited
    &&& choice is Some ==> b.lineage.merchant_id == choice
}

/// The user has an open invitation (under the chosen merchant, where one
/// was chosen).
pub open spec fn has_selected(bindings: Seq<UserRole>, user_id: u64, choice: Option<u64>) -> bool {
    exists|i: int| 0 <= i < bindings.len() && selected(#[trigger] bindings[i], user_id, choice)
}

/// The binding at `i` is the first of the selected ones.
pub open spec fn is_first_selected(
    bindings: Seq<UserRole>,
    user_id: u64,
    choice: Option<u64>,
    i: int,
) -> bool {
    &&& 0 <= i < bindings.len()
    &&& selected(bindings[i], user_id, choice)
    &&& forall|k: int| 0 <= k < i ==> !selected(#[trigger] bindings[k], user_id, choice)
}

/// The binding as it is once the invitation was accepted at `now`.
pub open spec fn accepted(b: UserRole, now: u64) -> UserRole {
    UserRole { status: BindingStatus::Active, updated_at: now, ..b }
}

/// The bindings after each selected one was accepted at `now`.
pub open spec fn activated(
    bindings: Seq<UserRole>,
    user_id: u64,
    choice: Option<u64>,
    now: u64,
) -> Seq<UserRole> {
    Seq::new(
        bindings.len(),
        |i: int|
            if selected(bindings[i], user_id, choice) {
                accepted(bindings[i], now)
            } else {
                bindings[i]
            },
    )
}

/// The merchants under which the user has open invitations among the
/// first `n` bindings, each once, in the order of their first appearance.
pub open spec fn candidates_upto(bindings: Seq<UserRole>, user_id: u64, n: int) -> Seq<u64>
    decreases n,
{
    if n <= 0 {
        Seq::empty()
    } else {
        let earlier = candidates_upto(bindings, user_id, n - 1);
        let b = bindings[n - 1];
        if selected(b, user_id, None) && b.lineage.merchant_id is Some && !earlier.contains(
            b.lineage.merchant_id->0,
        ) {
            earlier.push(b.lineage.merchant_id->0)
        } else {
            earlier
        }
    }
}

/// The merchants among which an invited user can choose.
pub open spec fn candidate_merchants(bindings: Seq<UserRole>, user_id: u64) -> Seq<u64> {
    candidates_upto(bindings, user_id, bindings.len() as int)
}

/// A merchant is a candidate exactly when the user has an open invitation
/// under it, and no candidate is named twice.
pub proof fn candidates_are_invitations(bindings: Seq<UserRole>, user_id: u64, n: int, m: u64)
    requires
        0 <= n <= bindings.len(),
    ensures
        candidates_upto(bindings, user_id, n).contains(m) <==> exists|k: int|
            0 <= k < n && selected(#[trigger] bindings[k], user_id, Some(m)),
        candidates_upto(bindings, user_id, n).no_duplicates(),
    decreases n,
{
    if n > 0 {
        candidates_are_invitations(bindings, user_id, n - 1, m);
        let earlier = candidates_upto(bindings, user_id, n - 1);
        let now = candidates_upto(bindings, user_id, n);
        let b = bindings[n - 1];
        if selected(b, user_id, None) && b.lineage.merchant_id is Some && !earlier.contains(
            b.lineage.merchant_id->0,
        ) {
            let added = b.lineage.merchant_id->0;
            assert(now == earlier.push(added));
            assert(now[earlier.len() as int] == added);
            assert forall|x: int| 0 <= x < earlier.len() implies now[x] == earlier[x] by {}
            if earlier.contains(m) {
                let x = choose|x: int| 0 <= x < earlier.len() && earlier[x] == m;
                assert(now[x] == m);
            }
            if m == added {
                assert(selected(bindings[n - 1], user_id, Some(m)));
            }
            if now.contains(m) {
                let x = choose|x: int| 0 <= x < now.len() && now[x] == m;
                if x < earlier.len() {
                    assert(earlier[x] == m);
                }
            }
        } else {
            if selected(b, user_id, Some(m)) {
                assert(earlier.contains(m));
            }
        }
        if exists|k: int| 0 <= k < n && selected(#[trigger] bindings[k], user_id, Some(m)) {
            let k = choose|k: int| 0 <= k < n && selected(#[trigger] bindings[k], user_id, Some(m));
            if k < n - 1 {
                assert(candidates_upto(bindings, user_id, n - 1).contains(m));
            }
        }
    }
}

/// Accepting invitations leaves the bindings sound, turns no active
/// binding back into an invitation and touches no other user.
pub proof fn activation_is_sound(
    bindings: Seq<UserRole>,
    roles: Seq<Role>,
    user_id: u64,
    choice: Option<u64>,
    now: u64,
)
    requires
        bindings_wf(bindings, roles),
    ensures
        bindings_wf(activated(bindings, user_id, choice, now), roles),
        keeps_active(bindings, activated(bindings, user_id, choice, now)),
        others_untouched(bindings, activated(bindings, user_id, choice, now), user_id),
{
    let after = activated(bindings, user_id, choice, now);
    assert forall|i: int| 0 <= i < after.len() implies has_role(roles, (#[trigger] after[i]).role_id)
        && after[i].lineage.fits(role_by_id(roles, after[i].role_id).scope_level) by {
        assert(has_role(roles, bindings[i].role_id));
    }
    assert forall|i: int, j: int|
        0 <= i < after.len() && 0 <= j < after.len() && i != j implies !binds(
        #[trigger] after[i],
        (#[trigger] after[j]).user_id,
        after[j].lineage,
    ) by {
        assert(!binds(bindings[i], bindings[j].user_id, bindings[j].lineage));
    }
    assert forall|i: int, j: int|
        0 <= i < bindings.len() && 0 <= j < after.len() && (#[trigger] bindings[i]).status
            == BindingStatus::Active && binds(
            #[trigger] after[j],
            bindings[i].user_id,
            bindings[i].lineage,
        ) implies after[j].status == BindingStatus::Active by {
        if i != j {
            assert(!binds(bindings[j], bindings[i].user_id, bindings[i].lineage));
        }
    }
}

/// Accepts each selected invitation of the list at `now`.
pub fn activate(bindings: &mut Vec<UserRole>, user_id: u64, choice: Option<u64>, now: u64)
    ensures
        final(bindings)@ == activated(old(bindings)@, user_id, choice, now),
{
    let mut i: usize = 0;
    while i < bindings.len()
        invariant
            i <= bindings.len(),
            bindings@.len() == old(bindings)@.len(),
            forall|k: int|
                0 <= k < i ==> bindings@[k] == activated(old(bindings)@, user_id, choice, now)[k],
            forall|k: int| i <= k < bindings@.len() ==> bindings@[k] == old(bindings)@[k],
        decreases bindings.len() - i,
    {
        let b = bindings[i];
        if is_selected(&b, user_id, choice) {
            bindings.set(
                i,
                UserRole {
                    user_id: b.user_id,
                    role_id: b.role_id,
                    lineage: b.lineage,
                    status: BindingStatus::Active,
                    invited_by: b.invited_by,
                    created_at: b.created_at,
                    updated_at: now,
                },
            );
        }
        i = i + 1;
    }
    assert(bindings@ =~= activated(old(bindings)@, user_id, choice, now));
}

/// Computes [`selected`].
pub fn is_selected(b: &UserRole, user_id: u64, choice: Option<u64>) -> (r: bool)
    ensures
        r == selected(*b, user_id, choice),
{
    if b.user_id != user_id {
        return false;
    }
    match b.status {
        BindingStatus::Active => {
            return false;
        },
        BindingStatus::Invited => {},
    }
    match choice {
        None => true,
        Some(_) => crate::scope::same_id(b.lineage.merchant_id, choice),
    }
}

/// The place of the first selected binding, if there is one.
pub fn find_selected(bindings: &Vec<UserRole>, user_id: u64, choice: Option<u64>) -> (r: Option<
    usize,
>)
    ensures
        r matches Some(i) ==> is_first_selected(bindings@, user_id, choice, i as int),
        r is None ==> !has_selected(bindings@, user_id, choice),
        r is Some ==> has_selected(bindings@, user_id, choice),
{
    let mut i: usize = 0;
    while i < bindings.len()
        invariant
            i <= bindings.len(),
            forall|k: int| 0 <= k < i ==> !selected(#[trigger] bindings@[k], user_id, choice),
        decreases bindings.len() - i,
    {
        if is_selected(&bindings[i], user_id, choice) {
            return Some(i);
        }
        i = i + 1;
    }
    None
}

/// Whether `id` occurs in `ids`.
pub fn has_id(ids: &Vec<u64>, id: u64) -> (b: bool)
    ensures
        b == ids@.contains(id),
{
    let mut i: usize = 0;
    while i < ids.len()
        invariant
            i <= ids.len(),
            forall|k: int| 0 <= k < i ==> ids@[k] != id,
        decreases ids.len() - i,
    {
        if ids[i] == id {
            return true;
        }
        i = i + 1;
    }
    false
}

/// Computes [`candidate_merchants`].
pub fn collect_candidates(bindings: &Vec<UserRole>, user_id: u64) -> (out: Vec<u64>)
    ensures
        out@ == candidate_merchants(bindings@, user_id),
{
    let mut out: Vec<u64> = Vec::new();
    let mut i: usize = 0;
    while i < bindings.len()
        invariant
            i <= bindings.len(),
            out@ == candidates_upto(bindings@, user_id, i as int),
        decreases bindings.len() - i,
    {
        let b = &bindings[i];
        if is_selected(b, user_id, None) {
            match b.lineage.merchant_id {
                Some(m) => {
                    if !has_id(&out, m) {
                        out.push(m);
                    }
                },
                None => {},
            }
        }
        i = i + 1;
    }
    out
}

/// The place of the binding of the user at the place, if there is one.
pub fn find_binding(bindings: &Vec<UserRole>, user_id: u64, place: &Lineage) -> (r: Option<usize>)
    ensures
        r matches Some(i) ==> i < bindings@.len() && binds(bindings@[i as int], user_id, *place),
        r is Some <==> has_binding(bindings@, user_id, *place),
{
    let mut i: usize = 0;
    while i < bindings.len()
        invariant
            i <= bindings.len(),
            forall|k: int| 0 <= k < i ==> !binds(#[trigger] bindings@[k], user_id, *place),
        decreases bindings.len() - i,
    {
        if bindings[i].user_id == user_id && bindings[i].lineage.same_as(place) {
            return Some(i);
        }
        i = i + 1;
    }
    None
}

/// Where the first selected binding stands, where there is one.
pub open spec fn first_selected(bindings: Seq<UserRole>, user_id: u64, choice: Option<u64>) -> int {
    choose|i: int| is_first_selected(bindings, user_id, choice, i)
}

/// There is one first selected binding at most.
pub proof fn first_selected_is(bindings: Seq<UserRole>, user_id: u64, choice: Option<u64>, i: int)
    requires
        is_first_selected(bindings, user_id, choice, i),
    ensures
        first_selected(bindings, user_id, choice) == i,
{
    let k = first_selected(bindings, user_id, choice);
    assert(is_first_selected(bindings, user_id, choice, k));
    if k < i {
        assert(!selected(bindings[k], user_id, choice));
    } else if i < k {
        assert(!selected(bindings[i], user_id, choice));
    }
}

/// Removing a binding leaves the others sound and as they were.
pub proof fn removal_is_sound(
    bindings: Seq<UserRole>,
    roles: Seq<Role>,
    i: int,
    level: ScopeLevel,
    place: Lineage,
)
    requires
        bindings_wf(bindings, roles),
        0 <= i < bindings.len(),
    ensures
        bindings_wf(bindings.remove(i), roles),
        keeps_active(bindings, bindings.remove(i)),
        !has_binding(bindings.remove(i), bindings[i].user_id, bindings[i].lineage),
        dominates(level, place, bindings[i].lineage.shape(), bindings[i].lineage)
            ==> bindings_confined(bindings, bindings.remove(i), level, place),
{
    let after = bindings.remove(i);
    assert forall|j: int| 0 <= j < after.len() implies after[j] == bindings[if j < i {
        j
    } else {
        j + 1
    }] by {}
    assert forall|j: int| 0 <= j < after.len() implies has_role(roles, (#[trigger] after[j]).role_id)
        && after[j].lineage.fits(role_by_id(roles, after[j].role_id).scope_level) by {
        let k = if j < i {
            j
        } else {
            j + 1
        };
        assert(has_role(roles, bindings[k].role_id));
    }
    assert forall|a: int, b: int|
        0 <= a < after.len() && 0 <= b < after.len() && a != b implies !binds(
        #[trigger] after[a],
        (#[trigger] after[b]).user_id,
        after[b].lineage,
    ) by {
        let ka = if a < i {
            a
        } else {
            a + 1
        };
        let kb = if b < i {
            b
        } else {
            b + 1
        };
        assert(!binds(bindings[ka], bindings[kb].user_id, bindings[kb].lineage));
    }
    assert forall|a: int, j: int|
        0 <= a < bindings.len() && 0 <= j < after.len() && (#[trigger] bindings[a]).status
            == BindingStatus::Active && binds(
            #[trigger] after[j],
            bindings[a].user_id,
            bindings[a].lineage,
        ) implies after[j].status == BindingStatus::Active by {
        let k = if j < i {
            j
        } else {
            j + 1
        };
        if k != a {
            assert(!binds(bindings[k], bindings[a].user_id, bindings[a].lineage));
        }
    }
    assert forall|j: int| 0 <= j < after.len() implies !binds(
        #[trigger] after[j],
        bindings[i].user_id,
        bindings[i].lineage,
    ) by {
        let k = if j < i {
            j
        } else {
            j + 1
        };
        assert(!binds(bindings[k], bindings[i].user_id, bindings[i].lineage));
    }
    if dominates(level, place, bindings[i].lineage.shape(), bindings[i].lineage) {
        assert forall|a: int|
            0 <= a < bindings.len() && !dominates(
                level,
                place,
                (#[trigger] bindings[a]).lineage.shape(),
                bindings[a].lineage,
            ) implies after.contains(bindings[a]) by {
            let j = if a < i {
                a
            } else {
                a - 1
            };
            assert(after[j] == bindings[a]);
        }
        assert forall|j: int|
            0 <= j < after.len() && !dominates(
                level,
                place,
                (#[trigger] after[j]).lineage.shape(),
                after[j].lineage,
            ) implies bindings.contains(after[j]) by {
            let k = if j < i {
                j
            } else {
                j + 1
            };
            assert(bindings[k] == after[j]);
        }
    }
}

/// Adding a binding for a user and place that had none leaves the
/// bindings sound.
pub proof fn addition_is_sound(
    bindings: Seq<UserRole>,
    roles: Seq<Role>,
    b: UserRole,
    level: ScopeLevel,
    place: Lineage,
)
    requires
        bindings_wf(bindings, roles),
        !has_binding(bindings, b.user_id, b.lineage),
        has_role(roles, b.role_id),
        b.lineage.fits(role_by_id(roles, b.role_id).scope_level),
    ensures
        bindings_wf(bindings.push(b), roles),
        keeps_active(bindings, bindings.push(b)),
        dominates(level, place, b.lineage.shape(), b.lineage) ==> bindings_confined(
            bindings,
            bindings.push(b),
            level,
            place,
        ),
{
    let after = bindings.push(b);
    assert forall|j: int| 0 <= j < bindings.len() implies after[j] == bindings[j] by {}
    assert(after[bindings.len() as int] == b);
    assert forall|j: int| 0 <= j < after.len() implies has_role(roles, (#[trigger] after[j]).role_id)
        && after[j].lineage.fits(role_by_id(roles, after[j].role_id).scope_level) by {
        if j < bindings.len() {
            assert(has_role(roles, bindings[j].role_id));
        }
    }
    assert forall|x: int, y: int|
        0 <= x < after.len() && 0 <= y < after.len() && x != y implies !binds(
        #[trigger] after[x],
        (#[trigger] after[y]).user_id,
        after[y].lineage,
    ) by {
        if x < bindings.len() && y < bindings.len() {
            assert(!binds(bindings[x], bindings[y].user_id, bindings[y].lineage));
        } else if x < bindings.len() {
            assert(!binds(bindings[x], b.user_id, b.lineage));
        } else {
            assert(!binds(bindings[y], b.user_id, b.lineage));
        }
    }
    assert forall|a: int, j: int|
        0 <= a < bindings.len() && 0 <= j < after.len() && (#[trigger] bindings[a]).status
            == BindingStatus::Active && binds(
            #[trigger] after[j],
            bindings[a].user_id,
            bindings[a].lineage,
        ) implies after[j].status == BindingStatus::Active by {
        if j < bindings.len() {
            if j != a {
                assert(!binds(bindings[j], bindings[a].user_id, bindings[a].lineage));
            }
        } else {
            assert(!binds(bindings[a], b.user_id, b.lineage));
        }
    }
    if dominates(level, place, b.lineage.shape(), b.lineage) {
        assert forall|a: int|
            0 <= a < bindings.len() && !dominates(
                level,
                place,
                (#[trigger] bindings[a]).lineage.shape(),
                bindings[a].lineage,
            ) implies after.contains(bindings[a]) by {
            assert(after[a] == bindings[a]);
        }
        assert forall|j: int|
            0 <= j < after.len() && !dominates(
                level,
                place,
                (#[trigger] after[j]).lineage.shape(),
                after[j].lineage,
            ) implies bindings.contains(after[j]) by {
            assert(bindings[j] == after[j]);
        }
    }
}

/// The binding with another role, changed at `now`.
pub open spec fn reassigned(b: UserRole, role_id: u64, now: u64) -> UserRole {
    UserRole { role_id, updated_at: now, ..b }
}

/// Giving a binding another role whose level its lineage fits leaves the
/// bindings sound.
pub proof fn reassignment_is_sound(
    bindings: Seq<UserRole>,
    roles: Seq<Role>,
    i: int,
    role_id: u64,
    now: u64,
    level: ScopeLevel,
    place: Lineage,
)
    requires
        bindings_wf(bindings, roles),
        0 <= i < bindings.len(),
        has_role(roles, role_id),
        bindings[i].lineage.fits(role_by_id(roles, role_id).scope_level),
    ensures
        bindings_wf(bindings.update(i, reassigned(bindings[i], role_id, now)), roles),
        keeps_active(bindings, bindings.update(i, reassigned(bindings[i], role_id, now))),
        dominates(level, place, bindings[i].lineage.shape(), bindings[i].lineage)
            ==> bindings_confined(
            bindings,
            bindings.update(i, reassigned(bindings[i], role_id, now)),
            level,
            place,
        ),
{
    let after = bindings.update(i, reassigned(bindings[i], role_id, now));
    assert forall|j: int| 0 <= j < after.len() implies has_role(roles, (#[trigger] after[j]).role_id)
        && after[j].lineage.fits(role_by_id(roles, after[j].role_id).scope_level) by {
        if j != i {
            assert(has_role(roles, bindings[j].role_id));
        }
    }
    assert forall|x: int, y: int|
        0 <= x < after.len() && 0 <= y < after.len() && x != y implies !binds(
        #[trigger] after[x],
        (#[trigger] after[y]).user_id,
        after[y].lineage,
    ) by {
        assert(!binds(bindings[x], bindings[y].user_id, bindings[y].lineage));
    }
    assert forall|a: int, j: int|
        0 <= a < bindings.len() && 0 <= j < after.len() && (#[trigger] bindings[a]).status
            == BindingStatus::Active && binds(
            #[trigger] after[j],
            bindings[a].user_id,
            bindings[a].lineage,
        ) implies after[j].status == BindingStatus::Active by {
        if j != a {
            assert(!binds(bindings[j], bindings[a].user_id, bindings[a].lineage));
        }
    }
    if dominates(level, place, bindings[i].lineage.shape(), bindings[i].lineage) {
        assert forall|a: int|
            0 <= a < bindings.len() && !dominates(
                level,
                place,
                (#[trigger] bindings[a]).lineage.shape(),
                bindings[a].lineage,
            ) implies after.contains(bindings[a]) by {
            assert(after[a] == bindings[a]);
        }
        assert forall|j: int|
            0 <= j < after.len() && !dominates(
                level,
                place,
                (#[trigger] after[j]).lineage.shape(),
                after[j].lineage,
            ) implies bindings.contains(after[j]) by {
            assert(bindings[j] == after[j]);
        }
    }
}

/// The list without every occurrence of `id`.
pub fn without_id(ids: &Vec<u64>, id: u64) -> (out: Vec<u64>)
    ensures
        out@.to_set() == ids@.to_set().remove(id),
{
    let mut out: Vec<u64> = Vec::new();
    let mut i: usize = 0;
    while i < ids.len()
        invariant
            i <= ids.len(),
            forall|x: u64| #[trigger] out@.contains(x) <==> x != id && ids@.take(i as int).contains(x),
        decreases ids.len() - i,
    {
        let ghost before = out@;
        let v = ids[i];
        if v != id {
            out.push(v);
        }
        proof {
            let shorter = ids@.take(i as int);
            let longer = ids@.take(i + 1);
            assert(longer =~= shorter.push(v));
            assert forall|x: u64| #[trigger] out@.contains(x) <==> x != id && longer.contains(x) by {
                if longer.contains(x) {
                    let k = choose|k: int| 0 <= k < longer.len() && longer[k] == x;
                    if k < shorter.len() {
                        assert(shorter[k] == x);
                    }
                }
                if shorter.contains(x) {
                    let k = choose|k: int| 0 <= k < shorter.len() && shorter[k] == x;
                    assert(longer[k] == x);
                }
                if before.contains(x) && v != id {
                    let k = choose|k: int| 0 <= k < before.len() && before[k] == x;
                    assert(out@[k] == x);
                }
                if out@.contains(x) {
                    let k = choose|k: int| 0 <= k < out@.len() && out@[k] == x;
                    if k < before.len() {
                        assert(before[k] == x);
                    } else {
                        assert(longer[i as int] == x);
                    }
                }
                if x == v && v != id {
                    assert(out@[before.len() as int] == x);
                    assert(longer[i as int] == x);
                }
            }
        }
        i = i + 1;
    }
    assert(ids@.take(i as int) =~= ids@);
    assert(out@.to_set() =~= ids@.to_set().remove(id));
    out
}

/// The place of the first role with the identifier, if there is one.
pub fn find_role_in(roles: &Vec<Role>, id: u64) -> (r: Option<usize>)
    ensures
        r matches Some(i) ==> i < roles@.len() && roles@[i as int].role_id == id,
        r is Some <==> has_role(roles@, id),
{
    let mut i: usize = 0;
    while i < roles.len()
        invariant
            i <= roles.len(),
            forall|k: int| 0 <= k < i ==> (#[trigger] roles@[k]).role_id != id,
        decreases roles.len() - i,
    {
        if roles[i].role_id == id {
            return Some(i);
        }
        i = i + 1;
    }
    None
}

/// Computes [`roles_wf`].
pub fn roles_are_sound(roles: &Vec<Role>, catalog: &Catalog, next_id: u64) -> (b: bool)
    requires
        catalog.wf(),
    ensures
        b == roles_wf(roles@, *catalog, next_id),
{
    let mut i: usize = 0;
    while i < roles.len()
        invariant
            i <= roles.len(),
            catalog.wf(),
            forall|k: int|
                0 <= k < i ==> role_ok(#[trigger] roles@[k], *catalog) && roles@[k].role_id
                    < next_id,
            forall|a: int, b: int|
                0 <= a < b < i ==> (#[trigger] roles@[a]).role_id < (#[trigger] roles@[b]).role_id,
        decreases roles.len() - i,
    {
        let role = &roles[i];
        if !role.lineage.matches_level(role.scope_level) || !catalog.knows(&role.groups)
            || role.role_id >= next_id {
            assert(!(role_ok(roles@[i as int], *catalog) && roles@[i as int].role_id < next_id));
            return false;
        }
        if i > 0 && roles[i - 1].role_id >= role.role_id {
            assert(!(roles@[i - 1].role_id < roles@[i as int].role_id));
            return false;
        }
        proof {
            assert forall|a: int, b: int| 0 <= a < b < i + 1 implies (#[trigger] roles@[a]).role_id < (
            #[trigger] roles@[b]).role_id by {
                if b == i && a < i - 1 {
                    assert(roles@[a].role_id < roles@[i - 1].role_id);
                }
            }
        }
        i = i + 1;
    }
    true
}

/// Computes [`bindings_wf`] against roles that are sound.
pub fn bindings_are_sound(
    bindings: &Vec<UserRole>,
    roles: &Vec<Role>,
    catalog: &Catalog,
    next_id: u64,
) -> (b: bool)
    requires
        roles_wf(roles@, *catalog, next_id),
    ensures
        b == bindings_wf(bindings@, roles@),
{
    let mut i: usize = 0;
    while i < bindings.len()
        invariant
            i <= bindings.len(),
            roles_wf(roles@, *catalog, next_id),
            forall|k: int|
                0 <= k < i ==> has_role(roles@, (#[trigger] bindings@[k]).role_id)
                    && bindings@[k].lineage.fits(
                    role_by_id(roles@, bindings@[k].role_id).scope_level,
                ),
            forall|a: int, b: int|
                0 <= a < i && 0 <= b < i && a != b ==> !binds(
                    #[trigger] bindings@[a],
                    (#[trigger] bindings@[b]).user_id,
                    bindings@[b].lineage,
                ),
        decreases bindings.len() - i,
    {
        let b = &bindings[i];
        match find_role_in(roles, b.role_id) {
            None => {
                assert(!has_role(roles@, bindings@[i as int].role_id));
                return false;
            },
            Some(k) => {
                proof {
                    role_lookup(roles@, *catalog, next_id, k as int);
                }
                if !b.lineage.matches_level(roles[k].scope_level) {
                    assert(!bindings@[i as int].lineage.fits(
                        role_by_id(roles@, bindings@[i as int].role_id).scope_level,
                    ));
                    return false;
                }
            },
        }
        let mut j: usize = 0;
        while j < i
            invariant
                j <= i,
                i < bindings.len(),
                *b == bindings@[i as int],
                forall|a: int|
                    0 <= a < j ==> !binds(#[trigger] bindings@[a], b.user_id, b.lineage),
            decreases i - j,
        {
            if bindings[j].user_id == b.user_id && bindings[j].lineage.same_as(&b.lineage) {
                assert(binds(
                    bindings@[j as int],
                    bindings@[i as int].user_id,
                    bindings@[i as int].lineage,
                ));
                return false;
            }
            j = j + 1;
        }
        proof {
            assert forall|x: int, y: int| 0 <= x < i + 1 && 0 <= y < i + 1 && x != y implies !binds(
                #[trigger] bindings@[x],
                (#[trigger] bindings@[y]).user_id,
                bindings@[y].lineage,
            ) by {
                if x == i {
                    assert(!binds(bindings@[y], b.user_id, b.lineage));
                } else if y == i {
                    assert(!binds(bindings@[x], b.user_id, b.lineage));
                }
            }
        }
        i = i + 1;
    }
    true
}

/// A copy of a list of roles.
pub fn copy_roles(roles: &Vec<Role>) -> (out: Vec<Role>)
    ensures
        out@.len() == roles@.len(),
        forall|k: int| 0 <= k < out@.len() ==> (#[trigger] out@[k])@ == roles@[k]@,
{
    let mut out: Vec<Role> = Vec::new();
    let mut i: usize = 0;
    while i < roles.len()
        invariant
            i <= roles.len(),
            out@.len() == i,
            forall|k: int| 0 <= k < i ==> (#[trigger] out@[k])@ == roles@[k]@,
        decreases roles.len() - i,
    {
        out.push(roles[i].duplicate());
        i = i + 1;
    }
    out
}

/// A copy of a list of bindings.
pub fn copy_bindings(bindings: &Vec<UserRole>) -> (out: Vec<UserRole>)
    ensures
        out@ == bindings@,
{
    let mut out: Vec<UserRole> = Vec::new();
    let mut i: usize = 0;
    while i < bindings.len()
        invariant
            i <= bindings.len(),
            out@ == bindings@.take(i as int),
        decreases bindings.len() - i,
    {
        out.push(bindings[i]);
        assert(bindings@.take(i + 1) =~= bindings@.take(i as int).push(bindings@[i as int]));
        i = i + 1;
    }
    assert(bindings@.take(bindings@.len() as int) =~= bindings@);
    out
}

/// A copy of a list of identifiers.
pub fn copy_ids(ids: &Vec<u64>) -> (out: Vec<u64>)
    ensures
        out@ == ids@,
{
    let mut out: Vec<u64> = Vec::new();
    let mut i: usize = 0;
    while i < ids.len()
        invariant
            i <= ids.len(),
            out@ == ids@.take(i as int),
        decreases ids.len() - i,
    {
        out.push(ids[i]);
        assert(ids@.take(i + 1) =~= ids@.take(i as int).push(ids@[i as int]));
        i = i + 1;
    }
    assert(ids@.take(ids@.len() as int) =~= ids@);
    out
}

/// Records that were not changed at all are confined to every reach.
pub proof fn no_change_is_confined(
    roles: Seq<Role>,
    bindings: Seq<UserRole>,
    level: ScopeLevel,
    place: Lineage,
)
    ensures
        roles_confined(roles, roles, level, place),
        bindings_confined(bindings, bindings, level, place),
{
    assert forall|i: int| 0 <= i < bindings.len() implies bindings.contains(#[trigger] bindings[i]) by {}
}

} // verus!
