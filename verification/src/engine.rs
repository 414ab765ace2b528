//! The engine: the catalog, the role definitions and the bindings, and the
//! operations that read and change them.

use vstd::prelude::*;
use crate::catalog::{
    canonical_tags, canonical_tags_same_members, Catalog, copy_tags, GroupInfo, normalize_tags,
    PermissionGroupTag,
};
use crate::error::AuthzError;
use crate::model::{
    AcceptInvitationResponse, BindingStatus, CreateRoleRequest, GetRoleRequest,
    IntermediateTokenDescriptor, InviteUserRequest, MerchantSelectRequest, Principal, Resolved,
    Role, RoleDetails, RoleSummary, RoleView, SessionDescriptor, TokenPurpose,
    UpdateRoleRequest, UpdateUserRoleRequest, UserRole, UserSummary,
};
use crate::rules::{
    activate, activated, activation_is_sound, addition_is_sound, binding_index, binding_lookup,
    binding_of, bindings_are_sound, bindings_confined, bindings_stay_sound, bindings_wf, binds,
    candidate_merchants, candidates_are_invitations, collect_candidates, copy_bindings,
    copy_ids, copy_roles, find_binding, find_selected, first_selected, first_selected_is,
    has_binding, has_id, has_role, has_selected, insert_role, insert_summary, keeps_active,
    keeps_scopes, line_listing_gains, line_listing_lacks, line_listing_skips,
    lists_dominated_bindings, lists_dominated_roles, others_untouched, reassigned,
    no_change_is_confined, reassignment_is_sound, removal_is_sound, role_by_id, role_listing_gains, role_listing_lacks,
    role_listing_skips, role_lookup, role_ok, roles_are_sound, roles_confined, roles_wf,
    without_id,
};
use crate::scope::{check_dominates, dominates, Lineage, ScopeLevel};

verus! {

/// The state of the core. The catalog is handed in when the engine is made
/// and only read afterwards.
pub struct Engine {
    catalog: Catalog,
    roles: Vec<Role>,
    bindings: Vec<UserRole>,
    pending: Vec<u64>,
    next_role_id: u64,
}

/// The role that a request to create one describes.
pub open spec fn requested_role(
    role_id: u64,
    request: CreateRoleRequest,
    created_by: Option<u64>,
    now: u64,
) -> RoleView {
    RoleView {
        role_id,
        name: request.name@,
        groups: canonical_tags(request.group_tags@),
        scope_level: request.scope_level,
        lineage: request.lineage,
        created_by,
        created_at: now,
        updated_at: now,
    }
}

/// A role after the changes of `patch` were made at the time `now`.
pub open spec fn patched_role(role: RoleView, patch: UpdateRoleRequest, now: u64) -> RoleView {
    RoleView {
        name: if patch.name is Some {
            patch.name->0@
        } else {
            role.name
        },
        groups: if patch.group_tags is Some {
            canonical_tags(patch.group_tags->0@)
        } else {
            role.groups
        },
        updated_at: now,
        ..role
    }
}

impl Engine {
    /// The permission catalog.
    pub closed spec fn catalog(&self) -> Catalog {
        self.catalog
    }

    /// The role definitions, in the order in which they were made.
    pub closed spec fn roles(&self) -> Seq<Role> {
        self.roles@
    }

    /// The bindings of users to roles.
    pub closed spec fn bindings(&self) -> Seq<UserRole> {
        self.bindings@
    }

    /// The users that hold an unspent credential for choosing a merchant.
    pub closed spec fn pending(&self) -> Set<u64> {
        self.pending@.to_set()
    }

    /// The identifier that the next role gets.
    pub closed spec fn next_role_id(&self) -> u64 {
        self.next_role_id
    }

    /// The state is sound.
    pub open spec fn wf(&self) -> bool {
        &&& self.catalog().wf()
        &&& roles_wf(self.roles(), self.catalog(), self.next_role_id())
        &&& bindings_wf(self.bindings(), self.roles())
    }

    /// The level of the principal's role.
    pub open spec fn actor_level(&self, actor: Principal) -> ScopeLevel {
        role_by_id(self.roles(), actor.role_id).scope_level
    }

    /// The principal dominates what is scoped at `level` and placed at
    /// `place`.
    pub open spec fn reaches(&self, actor: Principal, level: ScopeLevel, place: Lineage) -> bool {
        dominates(self.actor_level(actor), actor.lineage, level, place)
    }

    /// The principal can see the role with the identifier.
    pub open spec fn sees_role(&self, actor: Principal, role_id: u64) -> bool {
        has_role(self.roles(), role_id) && self.reaches(
            actor,
            role_by_id(self.roles(), role_id).scope_level,
            role_by_id(self.roles(), role_id).lineage,
        )
    }

    /// Whatever differs between `self` and `after` lies within the reach
    /// of the actor: the roles and bindings that the actor does not
    /// dominate are what they were, and none was added outside its reach.
    pub open spec fn confined_to(&self, after: Engine, actor: Principal) -> bool {
        has_role(self.roles(), actor.role_id) ==> roles_confined(
            self.roles(),
            after.roles(),
            self.actor_level(actor),
            actor.lineage,
        ) && bindings_confined(
            self.bindings(),
            after.bindings(),
            self.actor_level(actor),
            actor.lineage,
        )
    }

    /// Everything but the roles and the next identifier is as in `other`.
    pub open spec fn same_but_roles(&self, other: Engine) -> bool {
        &&& self.catalog() == other.catalog()
        &&& self.bindings() == other.bindings()
        &&& self.pending() == other.pending()
    }

    /// The permission catalog of the engine.
    pub fn permission_catalog(&self) -> (c: &Catalog)
        ensures
            *c == self.catalog(),
    {
        &self.catalog
    }

    /// An engine over `catalog` without roles and bindings.
    pub fn new(catalog: Catalog) -> (e: Engine)
        requires
            catalog.wf(),
        ensures
            e.wf(),
            e.catalog() == catalog,
            e.roles() == Seq::<Role>::empty(),
            e.bindings() == Seq::<UserRole>::empty(),
            e.pending() == Set::<u64>::empty(),
            e.next_role_id() == 1,
    {
        let e = Engine {
            catalog,
            roles: Vec::new(),
            bindings: Vec::new(),
            pending: Vec::new(),
            next_role_id: 1,
        };
        assert(e.pending@.to_set() =~= Set::<u64>::empty());
        e
    }

    /// The place of the role with the identifier in the list of roles.
    fn find_role(&self, id: u64) -> (r: Option<usize>)
        requires
            self.wf(),
        ensures
            r matches Some(i) ==> i < self.roles().len() && self.roles()[i as int].role_id == id
                && has_role(self.roles(), id) && role_by_id(self.roles(), id)
                == self.roles()[i as int],
            r is None ==> !has_role(self.roles(), id),
    {
        let mut i: usize = 0;
        while i < self.roles.len()
            invariant
                i <= self.roles.len(),
                self.wf(),
                forall|k: int| 0 <= k < i ==> (#[trigger] self.roles@[k]).role_id != id,
            decreases self.roles.len() - i,
        {
            if self.roles[i].role_id == id {
                proof {
                    role_lookup(self.roles(), self.catalog(), self.next_role_id(), i as int);
                }
                return Some(i);
            }
            i = i + 1;
        }
        None
    }

    /// What resolving a principal answers.
    pub open spec fn resolve_result(&self, principal: Principal, r: Result<Resolved, AuthzError>) -> bool {
        if has_role(self.roles(), principal.role_id) {
            let role = role_by_id(self.roles(), principal.role_id);
            r is Ok && r->Ok_0.group_tags@ == role.groups@ && r->Ok_0.permissions@
                == self.catalog().permitted(role.groups@)
        } else {
            r == Err::<Resolved, AuthzError>(AuthzError::RoleNotFound)
        }
    }

    /// The effective rights of a principal: the group tags of its role
    /// and the permissions that the catalog gives for them. A principal
    /// whose role is gone is reported with `RoleNotFound`.
    pub fn resolve(&self, principal: &Principal) -> (r: Result<Resolved, AuthzError>)
        requires
            self.wf(),
        ensures
            self.resolve_result(*principal, r),
    {
        match self.find_role(principal.role_id) {
            None => Err(AuthzError::RoleNotFound),
            Some(i) => {
                let role = &self.roles[i];
                match self.catalog.permissions_for(&role.groups) {
                    Ok(permissions) => Ok(Resolved { permissions, group_tags: copy_tags(&role.groups) }),
                    Err(_) => Err(AuthzError::ConfigurationError),
                }
            },
        }
    }

    /// What a look at a principal's role answers.
    pub open spec fn role_from_token_result(
        &self,
        principal: Principal,
        r: Result<RoleSummary, AuthzError>,
    ) -> bool {
        if has_role(self.roles(), principal.role_id) {
            let role = role_by_id(self.roles(), principal.role_id);
            r is Ok && r->Ok_0.group_tags@ == role.groups@ && r->Ok_0.scope_level == role.scope_level
        } else {
            r == Err::<RoleSummary, AuthzError>(AuthzError::RoleNotFound)
        }
    }

    /// The level and the group tags of a principal's role.
    pub fn role_from_token(&self, principal: &Principal) -> (r: Result<RoleSummary, AuthzError>)
        requires
            self.wf(),
        ensures
            self.role_from_token_result(*principal, r),
    {
        match self.find_role(principal.role_id) {
            None => Err(AuthzError::RoleNotFound),
            Some(i) => {
                let role = &self.roles[i];
                Ok(RoleSummary { scope_level: role.scope_level, group_tags: copy_tags(&role.groups) })
            },
        }
    }

    /// Why a role cannot be installed, if it cannot.
    pub open spec fn seed_role_verdict(&self, request: CreateRoleRequest) -> Option<AuthzError> {
        if !request.lineage.fits(request.scope_level) {
            Some(AuthzError::InvalidScope)
        } else if !self.catalog().knows_all(request.group_tags@) {
            Some(AuthzError::UnknownPermissionGroup)
        } else if self.next_role_id() == u64::MAX {
            Some(AuthzError::StorageUnavailable)
        } else {
            None
        }
    }

    /// Why a principal cannot create a role, if it cannot. The checks are
    /// made in this order.
    pub open spec fn create_role_verdict(
        &self,
        creator: Principal,
        request: CreateRoleRequest,
    ) -> Option<AuthzError> {
        if !has_role(self.roles(), creator.role_id) {
            Some(AuthzError::RoleNotFound)
        } else if !request.lineage.fits(request.scope_level) {
            Some(AuthzError::InvalidScope)
        } else if !self.catalog().knows_all(request.group_tags@) {
            Some(AuthzError::UnknownPermissionGroup)
        } else if !self.reaches(creator, request.scope_level, request.lineage) {
            Some(AuthzError::InsufficientPrivilege)
        } else if self.next_role_id() == u64::MAX {
            Some(AuthzError::StorageUnavailable)
        } else {
            None
        }
    }

    /// The state `after` is `self` with one more role, `added`.
    pub open spec fn role_added(&self, after: Engine, added: RoleView) -> bool {
        &&& after.same_but_roles(*self)
        &&& after.roles().len() == self.roles().len() + 1
        &&& after.roles().drop_last() == self.roles()
        &&& after.roles().last()@ == added
        &&& after.next_role_id() == self.next_role_id() + 1
    }

    /// Appends a role and hands out a copy of it.
    fn append_role(&mut self, role: Role) -> (copy: Role)
        requires
            old(self).wf(),
            role_ok(role, old(self).catalog()),
            role.role_id == old(self).next_role_id(),
            old(self).next_role_id() < u64::MAX,
        ensures
            final(self).wf(),
            old(self).role_added(*final(self), role@),
            copy@ == role@,
            keeps_scopes(old(self).roles(), final(self).roles()),
            keeps_active(old(self).bindings(), final(self).bindings()),
    {
        let copy = role.duplicate();
        self.roles.push(role);
        self.next_role_id = self.next_role_id + 1;
        proof {
            let before = old(self).roles();
            let after = self.roles();
            assert(after.drop_last() =~= before);
            assert forall|i: int| 0 <= i < self.bindings().len() implies has_role(
                after,
                (#[trigger] self.bindings()[i]).role_id,
            ) && self.bindings()[i].lineage.fits(
                role_by_id(after, self.bindings()[i].role_id).scope_level,
            ) by {
                let id = self.bindings()[i].role_id;
                let k = choose|k: int| 0 <= k < before.len() && (#[trigger] before[k]).role_id == id;
                role_lookup(before, self.catalog(), old(self).next_role_id(), k);
                assert(after[k] == before[k]);
                role_lookup(after, self.catalog(), self.next_role_id(), k);
            }
        }
        copy
    }

    /// Installs a role on behalf of no principal, as is done for the roles
    /// that have to exist before the first principal can act. The lineage
    /// has to fit the level and the catalog has to define every tag.
    pub fn seed_role(&mut self, request: CreateRoleRequest, now: u64) -> (r: Result<
        Role,
        AuthzError,
    >)
        requires
            old(self).wf(),
        ensures
            final(self).wf(),
            old(self).seed_role_verdict(request) matches Some(e) ==> r == Err::<Role, AuthzError>(e)
                && *final(self) == *old(self),
            old(self).seed_role_verdict(request) is None ==> r is Ok && r->Ok_0@ == requested_role(
                old(self).next_role_id(),
                request,
                None,
                now,
            ) && old(self).role_added(*final(self), r->Ok_0@),
            keeps_scopes(old(self).roles(), final(self).roles()),
            keeps_active(old(self).bindings(), final(self).bindings()),
    {
        if !request.lineage.matches_level(request.scope_level) {
            return Err(AuthzError::InvalidScope);
        }
        if !self.catalog.knows(&request.group_tags) {
            return Err(AuthzError::UnknownPermissionGroup);
        }
        if self.next_role_id == u64::MAX {
            return Err(AuthzError::StorageUnavailable);
        }
        let groups = normalize_tags(&request.group_tags);
        proof {
            assert forall|k: int| 0 <= k < groups@.len() implies self.catalog().defines(
                #[trigger] groups@[k],
            ) by {
                canonical_tags_same_members(request.group_tags@, groups@[k]);
            }
        }
        let role = Role {
            role_id: self.next_role_id,
            name: request.name,
            groups,
            scope_level: request.scope_level,
            lineage: request.lineage,
            created_by: None,
            created_at: now,
            updated_at: now,
        };
        Ok(self.append_role(role))
    }

    /// What creating a role does: a request that is turned down leaves
    /// the state as it was; one that is granted adds the requested role
    /// under the next identifier and answers with a copy of it.
    pub open spec fn create_role_result(
        &self,
        after: Engine,
        creator: Principal,
        request: CreateRoleRequest,
        now: u64,
        r: Result<Role, AuthzError>,
    ) -> bool {
        match self.create_role_verdict(creator, request) {
            Some(e) => r == Err::<Role, AuthzError>(e) && after == *self,
            None => r is Ok && r->Ok_0@ == requested_role(
                self.next_role_id(),
                request,
                Some(creator.user_id),
                now,
            ) && self.role_added(after, r->Ok_0@),
        }
    }

    /// Creates a role on behalf of `creator`. The role gets the next
    /// identifier, the tags of the request as an ordered set, and `now` as
    /// both of its times. The request is turned down when the creator's
    /// own role is gone, when the lineage does not fit the level, when a
    /// tag is unknown, when the creator does not dominate the place of the
    /// new role, and when no identifier is left.
    pub fn create_role(&mut self, creator: &Principal, request: CreateRoleRequest, now: u64) -> (r:
        Result<Role, AuthzError>)
        requires
            old(self).wf(),
        ensures
            final(self).wf(),
            old(self).create_role_result(*final(self), *creator, request, now, r),
            keeps_scopes(old(self).roles(), final(self).roles()),
            keeps_active(old(self).bindings(), final(self).bindings()),
            old(self).confined_to(*final(self), *creator),
    {
        let level = match self.find_role(creator.role_id) {
            Some(i) => self.roles[i].scope_level,
            None => {
                return Err(AuthzError::RoleNotFound);
            },
        };
        proof {
            no_change_is_confined(self.roles(), self.bindings(), level, creator.lineage);
        }
        if !request.lineage.matches_level(request.scope_level) {
            return Err(AuthzError::InvalidScope);
        }
        if !self.catalog.knows(&request.group_tags) {
            return Err(AuthzError::UnknownPermissionGroup);
        }
        if !check_dominates(level, &creator.lineage, request.scope_level, &request.lineage) {
            return Err(AuthzError::InsufficientPrivilege);
        }
        if self.next_role_id == u64::MAX {
            return Err(AuthzError::StorageUnavailable);
        }
        let groups = normalize_tags(&request.group_tags);
        proof {
            assert forall|k: int| 0 <= k < groups@.len() implies self.catalog().defines(
                #[trigger] groups@[k],
            ) by {
                canonical_tags_same_members(request.group_tags@, groups@[k]);
            }
        }
        let role = Role {
            role_id: self.next_role_id,
            name: request.name,
            groups,
            scope_level: request.scope_level,
            lineage: request.lineage,
            created_by: Some(creator.user_id),
            created_at: now,
            updated_at: now,
        };
        let copy = self.append_role(role);
        proof {
            let before = old(self).roles();
            let after = self.roles();
            assert forall|i: int| 0 <= i < before.len() implies after[i] == before[i] by {
                assert(after.drop_last()[i] == before[i]);
            }
        }
        Ok(copy)
    }
}

impl Engine {
    /// The level of a principal's role, or `RoleNotFound` where the role
    /// is gone.
    fn level_of(&self, actor: &Principal) -> (r: Result<ScopeLevel, AuthzError>)
        requires
            self.wf(),
        ensures
            !has_role(self.roles(), actor.role_id) ==> r == Err::<ScopeLevel, AuthzError>(
                AuthzError::RoleNotFound,
            ),
            has_role(self.roles(), actor.role_id) ==> r == Ok::<ScopeLevel, AuthzError>(
                self.actor_level(*actor),
            ),
    {
        match self.find_role(actor.role_id) {
            Some(i) => Ok(self.roles[i].scope_level),
            None => Err(AuthzError::RoleNotFound),
        }
    }

    /// Why a principal cannot change a role, if it cannot. The checks are
    /// made in this order.
    pub open spec fn update_role_verdict(
        &self,
        actor: Principal,
        role_id: u64,
        patch: UpdateRoleRequest,
    ) -> Option<AuthzError> {
        if !has_role(self.roles(), actor.role_id) {
            Some(AuthzError::RoleNotFound)
        } else if !self.sees_role(actor, role_id) {
            Some(AuthzError::NotFound)
        } else if patch.group_tags is Some && !self.catalog().knows_all(patch.group_tags->0@) {
            Some(AuthzError::UnknownPermissionGroup)
        } else if patch.scope_level is Some && patch.scope_level->0 != role_by_id(
            self.roles(),
            role_id,
        ).scope_level {
            Some(AuthzError::ImmutableField)
        } else {
            None
        }
    }

    /// The state `after` is `self` with the role of the identifier
    /// replaced by `replaced` and every other role as it was.
    pub open spec fn role_replaced(&self, after: Engine, role_id: u64, replaced: RoleView) -> bool {
        &&& after.same_but_roles(*self)
        &&& after.next_role_id() == self.next_role_id()
        &&& after.roles().len() == self.roles().len()
        &&& forall|k: int|
            0 <= k < self.roles().len() ==> if (#[trigger] self.roles()[k]).role_id == role_id {
                after.roles()[k]@ == replaced
            } else {
                after.roles()[k] == self.roles()[k]
            }
    }

    /// What changing a role does: a request that is turned down leaves the
    /// state as it was; one that is granted replaces the role by the
    /// patched one and answers with a copy of it.
    pub open spec fn update_role_result(
        &self,
        after: Engine,
        actor: Principal,
        role_id: u64,
        patch: UpdateRoleRequest,
        now: u64,
        r: Result<Role, AuthzError>,
    ) -> bool {
        match self.update_role_verdict(actor, role_id, patch) {
            Some(e) => r == Err::<Role, AuthzError>(e) && after == *self,
            None => r is Ok && r->Ok_0@ == patched_role(role_by_id(self.roles(), role_id)@, patch, now)
                && self.role_replaced(after, role_id, r->Ok_0@),
        }
    }

    /// Changes the name, the group tags or both of a role that the actor
    /// can see, and sets the time of its last change to `now`. The level
    /// of a role is fixed: a request that names another level is turned
    /// down with `ImmutableField`.
    pub fn update_role(
        &mut self,
        actor: &Principal,
        role_id: u64,
        patch: UpdateRoleRequest,
        now: u64,
    ) -> (r: Result<Role, AuthzError>)
        requires
            old(self).wf(),
        ensures
            final(self).wf(),
            old(self).update_role_result(*final(self), *actor, role_id, patch, now, r),
            keeps_scopes(old(self).roles(), final(self).roles()),
            keeps_active(old(self).bindings(), final(self).bindings()),
            old(self).confined_to(*final(self), *actor),
    {
        let level = match self.level_of(actor) {
            Ok(level) => level,
            Err(e) => {
                return Err(e);
            },
        };
        proof {
            no_change_is_confined(self.roles(), self.bindings(), level, actor.lineage);
        }
        let i = match self.find_role(role_id) {
            Some(i) => i,
            None => {
                return Err(AuthzError::NotFound);
            },
        };
        if !check_dominates(
            level,
            &actor.lineage,
            self.roles[i].scope_level,
            &self.roles[i].lineage,
        ) {
            return Err(AuthzError::NotFound);
        }
        match &patch.group_tags {
            Some(tags) => {
                if !self.catalog.knows(tags) {
                    return Err(AuthzError::UnknownPermissionGroup);
                }
            },
            None => {},
        }
        match patch.scope_level {
            Some(wanted) => {
                if wanted != self.roles[i].scope_level {
                    return Err(AuthzError::ImmutableField);
                }
            },
            None => {},
        }
        let current = &self.roles[i];
        let name = match patch.name {
            Some(n) => n,
            None => current.name.clone(),
        };
        let groups = match patch.group_tags {
            Some(tags) => {
                let groups = normalize_tags(&tags);
                proof {
                    assert forall|k: int| 0 <= k < groups@.len() implies self.catalog().defines(
                        #[trigger] groups@[k],
                    ) by {
                        canonical_tags_same_members(tags@, groups@[k]);
                    }
                }
                groups
            },
            None => copy_tags(&current.groups),
        };
        let role = Role {
            role_id: current.role_id,
            name,
            groups,
            scope_level: current.scope_level,
            lineage: current.lineage,
            created_by: current.created_by,
            created_at: current.created_at,
            updated_at: now,
        };
        let copy = role.duplicate();
        self.roles.set(i, role);
        proof {
            let before = old(self).roles();
            let after = self.roles();
            assert forall|k: int| 0 <= k < before.len() implies if (#[trigger] before[k]).role_id
                == role_id {
                after[k]@ == copy@
            } else {
                after[k] == before[k]
            } by {
                if k != i {
                    if k < i {
                        assert(before[k].role_id < before[i as int].role_id);
                    } else {
                        assert(before[i as int].role_id < before[k].role_id);
                    }
                }
            }
            assert forall|a: int, b: int| 0 <= a < b < after.len() implies (#[trigger] after[a]).role_id
                < (#[trigger] after[b]).role_id by {
                assert(after[a].role_id == before[a].role_id);
                assert(after[b].role_id == before[b].role_id);
            }
            assert forall|k: int| 0 <= k < after.len() implies role_ok(
                #[trigger] after[k],
                self.catalog(),
            ) && after[k].role_id < self.next_role_id() by {
                assert(role_ok(before[k], self.catalog()));
            }
            bindings_stay_sound(
                self.bindings(),
                before,
                after,
                self.catalog(),
                self.next_role_id(),
                self.next_role_id(),
            );
        }
        Ok(copy)
    }

    /// Why a principal cannot read a role, if it cannot.
    pub open spec fn get_role_verdict(&self, actor: Principal, role_id: u64) -> Option<AuthzError> {
        if !has_role(self.roles(), actor.role_id) {
            Some(AuthzError::RoleNotFound)
        } else if !self.sees_role(actor, role_id) {
            Some(AuthzError::NotFound)
        } else {
            None
        }
    }

    /// What the catalog says of each tag of `tags`, in their order.
    pub open spec fn describes(&self, infos: Seq<GroupInfo>, tags: Seq<PermissionGroupTag>) -> bool {
        &&& infos.len() == tags.len()
        &&& forall|k: int|
            0 <= k < infos.len() ==> {
                &&& (#[trigger] infos[k]).tag == tags[k]
                &&& infos[k].description@ == self.catalog().description_of(tags[k])
                &&& infos[k].permissions@ == self.catalog().bundle(tags[k])
            }
    }

    /// What reading a role answers: the role as it is kept, and for each
    /// of its groups what the catalog says of it.
    pub open spec fn get_role_result(
        &self,
        actor: Principal,
        role_id: u64,
        r: Result<RoleDetails, AuthzError>,
    ) -> bool {
        match self.get_role_verdict(actor, role_id) {
            Some(e) => r == Err::<RoleDetails, AuthzError>(e),
            None => r is Ok && r->Ok_0.role@ == role_by_id(self.roles(), role_id)@ && self.describes(
                r->Ok_0.groups@,
                r->Ok_0.role.groups@,
            ) && r->Ok_0.is_invitable,
        }
    }

    /// A role that the actor can see, with the catalog's description of
    /// each of its groups. A role outside the actor's reach is reported
    /// like one that does not exist.
    pub fn get_role(&self, actor: &Principal, request: GetRoleRequest) -> (r: Result<
        RoleDetails,
        AuthzError,
    >)
        requires
            self.wf(),
        ensures
            self.get_role_result(*actor, request.role_id, r),
    {
        let level = match self.level_of(actor) {
            Ok(level) => level,
            Err(e) => {
                return Err(e);
            },
        };
        let i = match self.find_role(request.role_id) {
            Some(i) => i,
            None => {
                return Err(AuthzError::NotFound);
            },
        };
        let role = &self.roles[i];
        let is_invitable = check_dominates(level, &actor.lineage, role.scope_level, &role.lineage);
        if !is_invitable {
            return Err(AuthzError::NotFound);
        }
        let mut groups: Vec<GroupInfo> = Vec::new();
        let mut k: usize = 0;
        while k < role.groups.len()
            invariant
                k <= role.groups.len(),
                self.wf(),
                self.catalog().knows_all(role.groups@),
                self.describes(groups@, role.groups@.take(k as int)),
            decreases role.groups.len() - k,
        {
            match self.catalog.describe(role.groups[k]) {
                Some(info) => {
                    groups.push(info);
                },
                None => {
                    return Err(AuthzError::ConfigurationError);
                },
            }
            k = k + 1;
        }
        assert(role.groups@.take(k as int) =~= role.groups@);
        Ok(RoleDetails { role: role.duplicate(), groups, is_invitable })
    }

    /// What a listing of roles answers.
    pub open spec fn list_roles_result(&self, actor: Principal, r: Result<Vec<Role>, AuthzError>) -> bool {
        if has_role(self.roles(), actor.role_id) {
            r is Ok && lists_dominated_roles(
                r->Ok_0@,
                self.roles(),
                self.actor_level(actor),
                actor.lineage,
            )
        } else {
            r == Err::<Vec<Role>, AuthzError>(AuthzError::RoleNotFound)
        }
    }

    /// The roles that the actor may grant to a user it invites: those that
    /// it dominates, broader levels first, within a level by name.
    pub fn list_invitable_roles(&self, actor: &Principal) -> (r: Result<Vec<Role>, AuthzError>)
        requires
            self.wf(),
        ensures
            self.list_roles_result(*actor, r),
    {
        let level = match self.level_of(actor) {
            Ok(level) => level,
            Err(e) => {
                return Err(e);
            },
        };
        let mut out: Vec<Role> = Vec::new();
        let mut i: usize = 0;
        assert(self.roles().take(0) =~= Seq::<Role>::empty());
        while i < self.roles.len()
            invariant
                i <= self.roles.len(),
                self.wf(),
                lists_dominated_roles(out@, self.roles().take(i as int), level, actor.lineage),
            decreases self.roles.len() - i,
        {
            let role = &self.roles[i];
            let ghost shorter = self.roles().take(i as int);
            let ghost listed = out@;
            proof {
                assert(self.roles().take(i + 1) =~= shorter.push(*role));
            }
            if check_dominates(level, &actor.lineage, role.scope_level, &role.lineage) {
                proof {
                    assert forall|k: int| 0 <= k < shorter.len() implies (#[trigger] shorter[k]).role_id
                        != role.role_id by {
                        assert(self.roles()[k].role_id < self.roles()[i as int].role_id);
                    }
                    role_listing_lacks(listed, shorter, *role, level, actor.lineage);
                }
                let copy = role.duplicate();
                let at = insert_role(&mut out, copy);
                proof {
                    role_listing_gains(listed, shorter, *role, copy, at as int, level, actor.lineage);
                }
            } else {
                proof {
                    role_listing_skips(listed, shorter, *role, level, actor.lineage);
                }
            }
            i = i + 1;
        }
        assert(self.roles().take(i as int) =~= self.roles());
        Ok(out)
    }

    /// What a listing of users answers.
    pub open spec fn list_users_result(
        &self,
        principal: Principal,
        r: Result<Vec<UserSummary>, AuthzError>,
    ) -> bool {
        if has_role(self.roles(), principal.role_id) {
            r is Ok && lists_dominated_bindings(
                r->Ok_0@,
                self.bindings(),
                self.actor_level(principal),
                principal.lineage,
            )
        } else {
            r == Err::<Vec<UserSummary>, AuthzError>(AuthzError::RoleNotFound)
        }
    }

    /// The bindings at places that the principal dominates, one line for
    /// each, ordered by user and then by place.
    pub fn list_users_in_lineage(&self, principal: &Principal) -> (r: Result<
        Vec<UserSummary>,
        AuthzError,
    >)
        requires
            self.wf(),
        ensures
            self.list_users_result(*principal, r),
    {
        let level = match self.level_of(principal) {
            Ok(level) => level,
            Err(e) => {
                return Err(e);
            },
        };
        let mut out: Vec<UserSummary> = Vec::new();
        let mut i: usize = 0;
        assert(self.bindings().take(0) =~= Seq::<UserRole>::empty());
        while i < self.bindings.len()
            invariant
                i <= self.bindings.len(),
                self.wf(),
                lists_dominated_bindings(
                    out@,
                    self.bindings().take(i as int),
                    level,
                    principal.lineage,
                ),
            decreases self.bindings.len() - i,
        {
            let b = &self.bindings[i];
            let ghost shorter = self.bindings().take(i as int);
            let ghost listed = out@;
            proof {
                assert(self.bindings().take(i + 1) =~= shorter.push(*b));
            }
            if check_dominates(level, &principal.lineage, lineage_level(&b.lineage), &b.lineage) {
                let line = UserSummary {
                    user_id: b.user_id,
                    role_id: b.role_id,
                    lineage: b.lineage,
                    status: b.status,
                };
                proof {
                    assert forall|k: int| 0 <= k < shorter.len() implies !binds(
                        #[trigger] shorter[k],
                        b.user_id,
                        b.lineage,
                    ) by {
                        assert(!binds(
                            self.bindings()[k],
                            self.bindings()[i as int].user_id,
                            self.bindings()[i as int].lineage,
                        ));
                    }
                    line_listing_lacks(listed, shorter, *b, level, principal.lineage);
                }
                let at = insert_summary(&mut out, line);
                proof {
                    line_listing_gains(listed, shorter, *b, at as int, level, principal.lineage);
                }
            } else {
                proof {
                    line_listing_skips(listed, shorter, *b, level, principal.lineage);
                }
            }
            i = i + 1;
        }
        assert(self.bindings().take(i as int) =~= self.bindings());
        Ok(out)
    }
}

/// Whether the principal's credential was issued for exactly this purpose.
pub fn holds_purpose(principal: &Principal, purpose: TokenPurpose) -> (b: bool)
    ensures
        b == (principal.token_purpose == Some(purpose)),
{
    match principal.token_purpose {
        Some(p) => p == purpose,
        None => false,
    }
}

impl Engine {
    /// Everything but the bindings is as in `other`.
    pub open spec fn same_but_bindings(&self, other: Engine) -> bool {
        &&& self.catalog() == other.catalog()
        &&& self.roles() == other.roles()
        &&& self.pending() == other.pending()
        &&& self.next_role_id() == other.next_role_id()
    }

    /// Why a principal cannot invite a user, if it cannot. The checks are
    /// made in this order.
    pub open spec fn invite_user_verdict(&self, actor: Principal, request: InviteUserRequest) -> Option<
        AuthzError,
    > {
        if !has_role(self.roles(), actor.role_id) {
            Some(AuthzError::RoleNotFound)
        } else if !self.sees_role(actor, request.role_id) {
            Some(AuthzError::NotFound)
        } else if !request.lineage.fits(role_by_id(self.roles(), request.role_id).scope_level) {
            Some(AuthzError::InvalidScope)
        } else if !self.reaches(
            actor,
            role_by_id(self.roles(), request.role_id).scope_level,
            request.lineage,
        ) {
            Some(AuthzError::InsufficientPrivilege)
        } else if has_binding(self.bindings(), request.user_id, request.lineage) {
            Some(AuthzError::AlreadyExists)
        } else {
            None
        }
    }

    /// The invitation that a request describes.
    pub open spec fn invitation(actor: Principal, request: InviteUserRequest, now: u64) -> UserRole {
        UserRole {
            user_id: request.user_id,
            role_id: request.role_id,
            lineage: request.lineage,
            status: BindingStatus::Invited,
            invited_by: actor.user_id,
            created_at: now,
            updated_at: now,
        }
    }

    /// What inviting does: a request that is turned down leaves the state
    /// as it was; one that is granted adds the invitation.
    pub open spec fn invite_user_result(
        &self,
        after: Engine,
        actor: Principal,
        request: InviteUserRequest,
        now: u64,
        r: Result<(), AuthzError>,
    ) -> bool {
        match self.invite_user_verdict(actor, request) {
            Some(e) => r == Err::<(), AuthzError>(e) && after == *self,
            None => r is Ok && after.same_but_bindings(*self) && after.bindings()
                == self.bindings().push(Engine::invitation(actor, request, now)),
        }
    }

    /// Invites a user to a role at a place: a binding with the status
    /// `Invited` is added. The actor has to see the role and to dominate
    /// the place, the place has to fit the level of the role, and the user
    /// must not be bound at the place yet, be it as invited or as active.
    pub fn invite_user(&mut self, actor: &Principal, request: InviteUserRequest, now: u64) -> (r:
        Result<(), AuthzError>)
        requires
            old(self).wf(),
        ensures
            final(self).wf(),
            old(self).invite_user_result(*final(self), *actor, request, now, r),
            keeps_scopes(old(self).roles(), final(self).roles()),
            keeps_active(old(self).bindings(), final(self).bindings()),
            old(self).confined_to(*final(self), *actor),
    {
        let level = match self.level_of(actor) {
            Ok(level) => level,
            Err(e) => {
                return Err(e);
            },
        };
        proof {
            no_change_is_confined(self.roles(), self.bindings(), level, actor.lineage);
        }
        let i = match self.find_role(request.role_id) {
            Some(i) => i,
            None => {
                return Err(AuthzError::NotFound);
            },
        };
        let offered = self.roles[i].scope_level;
        if !check_dominates(level, &actor.lineage, offered, &self.roles[i].lineage) {
            return Err(AuthzError::NotFound);
        }
        if !request.lineage.matches_level(offered) {
            return Err(AuthzError::InvalidScope);
        }
        if !check_dominates(level, &actor.lineage, offered, &request.lineage) {
            return Err(AuthzError::InsufficientPrivilege);
        }
        if find_binding(&self.bindings, request.user_id, &request.lineage).is_some() {
            return Err(AuthzError::AlreadyExists);
        }
        let b = UserRole {
            user_id: request.user_id,
            role_id: request.role_id,
            lineage: request.lineage,
            status: BindingStatus::Invited,
            invited_by: actor.user_id,
            created_at: now,
            updated_at: now,
        };
        proof {
            addition_is_sound(self.bindings(), self.roles(), b, level, actor.lineage);
        }
        self.bindings.push(b);
        Ok(())
    }

    /// Why a principal cannot remove a binding, if it cannot. The checks
    /// are made in this order.
    pub open spec fn delete_verdict(&self, actor: Principal, user_id: u64, place: Lineage) -> Option<
        AuthzError,
    > {
        if !has_role(self.roles(), actor.role_id) {
            Some(AuthzError::RoleNotFound)
        } else if !self.reaches(actor, place.shape(), place) {
            Some(AuthzError::InsufficientPrivilege)
        } else if !has_binding(self.bindings(), user_id, place) {
            Some(AuthzError::NotFound)
        } else {
            None
        }
    }

    /// What removing a binding does: a request that is turned down leaves
    /// the state as it was; one that is granted takes the binding out and
    /// leaves every other binding where it was.
    pub open spec fn delete_result(
        &self,
        after: Engine,
        actor: Principal,
        user_id: u64,
        place: Lineage,
        r: Result<(), AuthzError>,
    ) -> bool {
        match self.delete_verdict(actor, user_id, place) {
            Some(e) => r == Err::<(), AuthzError>(e) && after == *self,
            None => r is Ok && after.same_but_bindings(*self) && after.bindings()
                == self.bindings().remove(binding_index(self.bindings(), user_id, place))
                && !has_binding(after.bindings(), user_id, place),
        }
    }

    /// Removes the binding of a user at a place. The role that the binding
    /// named stays. A second removal of the same binding finds nothing
    /// and fails with `NotFound`.
    pub fn delete_user_role_binding(&mut self, actor: &Principal, user_id: u64, place: Lineage) -> (r:
        Result<(), AuthzError>)
        requires
            old(self).wf(),
        ensures
            final(self).wf(),
            old(self).delete_result(*final(self), *actor, user_id, place, r),
            keeps_scopes(old(self).roles(), final(self).roles()),
            keeps_active(old(self).bindings(), final(self).bindings()),
            old(self).confined_to(*final(self), *actor),
    {
        let level = match self.level_of(actor) {
            Ok(level) => level,
            Err(e) => {
                return Err(e);
            },
        };
        proof {
            no_change_is_confined(self.roles(), self.bindings(), level, actor.lineage);
        }
        if !check_dominates(level, &actor.lineage, lineage_level(&place), &place) {
            return Err(AuthzError::InsufficientPrivilege);
        }
        let i = match find_binding(&self.bindings, user_id, &place) {
            Some(i) => i,
            None => {
                return Err(AuthzError::NotFound);
            },
        };
        proof {
            binding_lookup(self.bindings(), i as int);
            removal_is_sound(self.bindings(), self.roles(), i as int, level, actor.lineage);
        }
        let _ = self.bindings.remove(i);
        Ok(())
    }

    /// Why a principal cannot give a binding another role, if it cannot.
    /// The checks are made in this order.
    pub open spec fn update_user_role_verdict(
        &self,
        actor: Principal,
        request: UpdateUserRoleRequest,
    ) -> Option<AuthzError> {
        if !has_role(self.roles(), actor.role_id) {
            Some(AuthzError::RoleNotFound)
        } else if !self.reaches(actor, request.lineage.shape(), request.lineage) {
            Some(AuthzError::InsufficientPrivilege)
        } else if !has_binding(self.bindings(), request.user_id, request.lineage) || binding_of(
            self.bindings(),
            request.user_id,
            request.lineage,
        ).status != BindingStatus::Active {
            Some(AuthzError::NotFound)
        } else if !self.sees_role(actor, request.role_id) {
            Some(AuthzError::NotFound)
        } else if !request.lineage.fits(role_by_id(self.roles(), request.role_id).scope_level) {
            Some(AuthzError::InvalidScope)
        } else {
            None
        }
    }

    /// What giving a binding another role does: a request that is turned
    /// down leaves the state as it was; one that is granted changes the
    /// role and the time of the last change of that binding alone.
    pub open spec fn update_user_role_result(
        &self,
        after: Engine,
        actor: Principal,
        request: UpdateUserRoleRequest,
        now: u64,
        r: Result<(), AuthzError>,
    ) -> bool {
        match self.update_user_role_verdict(actor, request) {
            Some(e) => r == Err::<(), AuthzError>(e) && after == *self,
            None => r is Ok && after.same_but_bindings(*self) && after.bindings()
                == self.bindings().update(
                binding_index(self.bindings(), request.user_id, request.lineage),
                reassigned(
                    binding_of(self.bindings(), request.user_id, request.lineage),
                    request.role_id,
                    now,
                ),
            ),
        }
    }

    /// Gives the active binding of a user at a place another role and sets
    /// the time of its last change to `now`. The actor has to dominate the
    /// place and to see the new role, and the place has to fit the level
    /// of the new role.
    pub fn update_user_role(&mut self, actor: &Principal, request: UpdateUserRoleRequest, now: u64) -> (r:
        Result<(), AuthzError>)
        requires
            old(self).wf(),
        ensures
            final(self).wf(),
            old(self).update_user_role_result(*final(self), *actor, request, now, r),
            keeps_scopes(old(self).roles(), final(self).roles()),
            keeps_active(old(self).bindings(), final(self).bindings()),
            old(self).confined_to(*final(self), *actor),
    {
        let level = match self.level_of(actor) {
            Ok(level) => level,
            Err(e) => {
                return Err(e);
            },
        };
        proof {
            no_change_is_confined(self.roles(), self.bindings(), level, actor.lineage);
        }
        if !check_dominates(level, &actor.lineage, lineage_level(&request.lineage), &request.lineage) {
            return Err(AuthzError::InsufficientPrivilege);
        }
        let i = match find_binding(&self.bindings, request.user_id, &request.lineage) {
            Some(i) => i,
            None => {
                return Err(AuthzError::NotFound);
            },
        };
        proof {
            binding_lookup(self.bindings(), i as int);
        }
        let b = self.bindings[i];
        match b.status {
            BindingStatus::Invited => {
                return Err(AuthzError::NotFound);
            },
            BindingStatus::Active => {},
        }
        let k = match self.find_role(request.role_id) {
            Some(k) => k,
            None => {
                return Err(AuthzError::NotFound);
            },
        };
        let offered = self.roles[k].scope_level;
        if !check_dominates(level, &actor.lineage, offered, &self.roles[k].lineage) {
            return Err(AuthzError::NotFound);
        }
        if !request.lineage.matches_level(offered) {
            return Err(AuthzError::InvalidScope);
        }
        proof {
            reassignment_is_sound(
                self.bindings(),
                self.roles(),
                i as int,
                request.role_id,
                now,
                level,
                actor.lineage,
            );
        }
        self.bindings.set(
            i,
            UserRole {
                user_id: b.user_id,
                role_id: request.role_id,
                lineage: b.lineage,
                status: b.status,
                invited_by: b.invited_by,
                created_at: b.created_at,
                updated_at: now,
            },
        );
        Ok(())
    }

    /// The descriptor is the one of a full session for the user of the
    /// binding `b`, at its place and with the permissions of its role.
    pub open spec fn is_session(&self, session: SessionDescriptor, b: UserRole) -> bool {
        &&& session.user_id == b.user_id
        &&& session.role_id == b.role_id
        &&& session.lineage == b.lineage
        &&& session.permissions@ == self.catalog().permitted(
            role_by_id(self.roles(), b.role_id).groups@,
        )
        &&& session.purpose is None
    }

    /// The session descriptor for a binding.
    fn session_for(&self, b: &UserRole) -> (r: Result<SessionDescriptor, AuthzError>)
        requires
            self.wf(),
            has_role(self.roles(), b.role_id),
        ensures
            r is Ok,
            self.is_session(r->Ok_0, *b),
    {
        match self.find_role(b.role_id) {
            Some(i) => match self.catalog.permissions_for(&self.roles[i].groups) {
                Ok(permissions) => Ok(
                    SessionDescriptor {
                        user_id: b.user_id,
                        role_id: b.role_id,
                        lineage: b.lineage,
                        permissions,
                        purpose: None,
                    },
                ),
                Err(e) => Err(e),
            },
            None => Err(AuthzError::RoleNotFound),
        }
    }

    /// Why an invitee cannot accept, if it cannot. The purpose of the
    /// credential is looked at before anything else.
    pub open spec fn accept_verdict(&self, principal: Principal) -> Option<AuthzError> {
        if principal.token_purpose != Some(TokenPurpose::AcceptInvite) {
            Some(AuthzError::InvalidTokenPurpose)
        } else if !has_selected(self.bindings(), principal.user_id, None) {
            Some(AuthzError::NotFound)
        } else {
            None
        }
    }

    /// What accepting does where it succeeds. Invitations under one
    /// merchant at most become active at once, and the answer is the
    /// session for the first of them. Invitations under several merchants
    /// stay as they are, and the answer names the merchants to choose
    /// from; the invitee then holds a credential for choosing.
    pub open spec fn accept_outcome(
        &self,
        after: Engine,
        principal: Principal,
        now: u64,
        response: AcceptInvitationResponse,
    ) -> bool {
        let user = principal.user_id;
        let candidates = candidate_merchants(self.bindings(), user);
        &&& after.catalog() == self.catalog()
        &&& after.roles() == self.roles()
        &&& after.next_role_id() == self.next_role_id()
        &&& if candidates.len() <= 1 {
            &&& response matches AcceptInvitationResponse::Active(session)
            &&& self.is_session(session, self.bindings()[first_selected(self.bindings(), user, None)])
            &&& after.bindings() == activated(self.bindings(), user, None, now)
            &&& after.pending() == self.pending().remove(user)
        } else {
            &&& response matches AcceptInvitationResponse::PendingMerchantSelect(token)
            &&& token.user_id == user
            &&& token.purpose == TokenPurpose::MerchantSelect
            &&& token.candidates@ == candidates
            &&& after.bindings() == self.bindings()
            &&& after.pending() == self.pending().insert(user)
        }
    }

    /// What accepting does: a request that is turned down leaves the state
    /// as it was; one that is granted does what [`Engine::accept_outcome`]
    /// says.
    pub open spec fn accept_result(
        &self,
        after: Engine,
        principal: Principal,
        now: u64,
        r: Result<AcceptInvitationResponse, AuthzError>,
    ) -> bool {
        match self.accept_verdict(principal) {
            Some(e) => r == Err::<AcceptInvitationResponse, AuthzError>(e) && after == *self,
            None => r is Ok && self.accept_outcome(after, principal, now, r->Ok_0),
        }
    }

    /// Accepts the open invitations of the principal. The credential has
    /// to be one for accepting invitations; any other is turned down
    /// before the state is looked at.
    pub fn accept_invitation(&mut self, principal: &Principal, now: u64) -> (r: Result<
        AcceptInvitationResponse,
        AuthzError,
    >)
        requires
            old(self).wf(),
        ensures
            final(self).wf(),
            old(self).accept_result(*final(self), *principal, now, r),
            keeps_scopes(old(self).roles(), final(self).roles()),
            keeps_active(old(self).bindings(), final(self).bindings()),
            others_untouched(old(self).bindings(), final(self).bindings(), principal.user_id),
    {
        if !holds_purpose(principal, TokenPurpose::AcceptInvite) {
            return Err(AuthzError::InvalidTokenPurpose);
        }
        let user = principal.user_id;
        let first = match find_selected(&self.bindings, user, None) {
            Some(i) => i,
            None => {
                return Err(AuthzError::NotFound);
            },
        };
        proof {
            first_selected_is(self.bindings(), user, None, first as int);
            activation_is_sound(self.bindings(), self.roles(), user, None, now);
        }
        let candidates = collect_candidates(&self.bindings, user);
        if candidates.len() <= 1 {
            let b = self.bindings[first];
            let session = match self.session_for(&b) {
                Ok(session) => session,
                Err(e) => {
                    return Err(e);
                },
            };
            activate(&mut self.bindings, user, None, now);
            self.pending = without_id(&self.pending, user);
            Ok(AcceptInvitationResponse::Active(session))
        } else {
            if !has_id(&self.pending, user) {
                self.pending.push(user);
            }
            proof {
                let before = old(self).pending@;
                let after = self.pending@;
                assert(after.to_set() =~= before.to_set().insert(user)) by {
                    assert forall|x: u64| after.to_set().contains(x) <==> before.to_set().insert(
                        user,
                    ).contains(x) by {
                        if before.contains(user) {
                            assert(after == before);
                        } else {
                            assert(after == before.push(user));
                            assert(after[before.len() as int] == user);
                            if before.contains(x) {
                                let k = choose|k: int| 0 <= k < before.len() && before[k] == x;
                                assert(after[k] == x);
                            }
                            if after.contains(x) {
                                let k = choose|k: int| 0 <= k < after.len() && after[k] == x;
                                if k < before.len() {
                                    assert(before[k] == x);
                                }
                            }
                        }
                    }
                }
            }
            Ok(
                AcceptInvitationResponse::PendingMerchantSelect(
                    IntermediateTokenDescriptor {
                        user_id: user,
                        purpose: TokenPurpose::MerchantSelect,
                        candidates,
                    },
                ),
            )
        }
    }

    /// Why an invitee cannot choose a merchant, if it cannot. The purpose
    /// of the credential is looked at before anything else; then whether
    /// the credential for choosing is still unspent; then the choice.
    pub open spec fn select_verdict(&self, principal: Principal, merchant_id: u64) -> Option<
        AuthzError,
    > {
        if principal.token_purpose != Some(TokenPurpose::AcceptInvite) {
            Some(AuthzError::InvalidTokenPurpose)
        } else if !self.pending().contains(principal.user_id) {
            Some(AuthzError::AlreadyProcessed)
        } else if !candidate_merchants(self.bindings(), principal.user_id).contains(merchant_id) {
            Some(AuthzError::InvalidSelection)
        } else {
            None
        }
    }

    /// What choosing a merchant does where it succeeds: the invitations of
    /// the user under the merchant become active, those under other
    /// merchants stay, the credential for choosing is spent, and the
    /// answer is the session for the first invitation under the merchant.
    pub open spec fn select_outcome(
        &self,
        after: Engine,
        principal: Principal,
        merchant_id: u64,
        now: u64,
        session: SessionDescriptor,
    ) -> bool {
        let user = principal.user_id;
        &&& after.catalog() == self.catalog()
        &&& after.roles() == self.roles()
        &&& after.next_role_id() == self.next_role_id()
        &&& self.is_session(
            session,
            self.bindings()[first_selected(self.bindings(), user, Some(merchant_id))],
        )
        &&& after.bindings() == activated(self.bindings(), user, Some(merchant_id), now)
        &&& after.pending() == self.pending().remove(user)
    }

    /// What choosing a merchant does: a request that is turned down
    /// leaves the state as it was; one that is granted does what
    /// [`Engine::select_outcome`] says.
    pub open spec fn select_result(
        &self,
        after: Engine,
        principal: Principal,
        merchant_id: u64,
        now: u64,
        r: Result<SessionDescriptor, AuthzError>,
    ) -> bool {
        match self.select_verdict(principal, merchant_id) {
            Some(e) => r == Err::<SessionDescriptor, AuthzError>(e) && after == *self,
            None => r is Ok && self.select_outcome(after, principal, merchant_id, now, r->Ok_0),
        }
    }

    /// Exchanges the credential for choosing a merchant for a session
    /// under the chosen one. The credential can be spent once.
    pub fn merchant_select_token_only_flow(
        &mut self,
        principal: &Principal,
        request: MerchantSelectRequest,
        now: u64,
    ) -> (r: Result<SessionDescriptor, AuthzError>)
        requires
            old(self).wf(),
        ensures
            final(self).wf(),
            old(self).select_result(*final(self), *principal, request.merchant_id, now, r),
            keeps_scopes(old(self).roles(), final(self).roles()),
            keeps_active(old(self).bindings(), final(self).bindings()),
            others_untouched(old(self).bindings(), final(self).bindings(), principal.user_id),
    {
        if !holds_purpose(principal, TokenPurpose::AcceptInvite) {
            return Err(AuthzError::InvalidTokenPurpose);
        }
        let user = principal.user_id;
        if !has_id(&self.pending, user) {
            return Err(AuthzError::AlreadyProcessed);
        }
        let candidates = collect_candidates(&self.bindings, user);
        if !has_id(&candidates, request.merchant_id) {
            return Err(AuthzError::InvalidSelection);
        }
        let choice = Some(request.merchant_id);
        proof {
            candidates_are_invitations(
                self.bindings(),
                user,
                self.bindings().len() as int,
                request.merchant_id,
            );
            activation_is_sound(self.bindings(), self.roles(), user, choice, now);
        }
        let first = match find_selected(&self.bindings, user, choice) {
            Some(i) => i,
            None => {
                return Err(AuthzError::InvalidSelection);
            },
        };
        proof {
            first_selected_is(self.bindings(), user, choice, first as int);
        }
        let b = self.bindings[first];
        let session = match self.session_for(&b) {
            Ok(session) => session,
            Err(e) => {
                return Err(e);
            },
        };
        activate(&mut self.bindings, user, choice, now);
        self.pending = without_id(&self.pending, user);
        Ok(session)
    }
}

impl Engine {
    /// The number of role definitions.
    pub fn role_count(&self) -> (n: usize)
        ensures
            n == self.roles().len(),
    {
        self.roles.len()
    }

    /// The number of bindings.
    pub fn binding_count(&self) -> (n: usize)
        ensures
            n == self.bindings().len(),
    {
        self.bindings.len()
    }

    /// The binding of a user at a place, if the user is bound there.
    pub fn binding_at(&self, user_id: u64, place: &Lineage) -> (r: Option<UserRole>)
        requires
            self.wf(),
        ensures
            has_binding(self.bindings(), user_id, *place) ==> r == Some(
                binding_of(self.bindings(), user_id, *place),
            ),
            !has_binding(self.bindings(), user_id, *place) ==> r is None,
    {
        match find_binding(&self.bindings, user_id, place) {
            Some(i) => {
                proof {
                    binding_lookup(self.bindings(), i as int);
                }
                Some(self.bindings[i])
            },
            None => None,
        }
    }

    /// Whether the user holds an unspent credential for choosing a
    /// merchant.
    pub fn awaits_selection(&self, user_id: u64) -> (b: bool)
        ensures
            b == self.pending().contains(user_id),
    {
        has_id(&self.pending, user_id)
    }
}

impl Engine {
    /// The records are sound under the catalog: an engine can hold them.
    pub open spec fn sound(
        catalog: Catalog,
        roles: Seq<Role>,
        bindings: Seq<UserRole>,
        next_role_id: u64,
    ) -> bool {
        roles_wf(roles, catalog, next_role_id) && bindings_wf(bindings, roles)
    }

    /// An engine over records that were kept elsewhere. Records that break
    /// a rule of the core (a role whose lineage does not fit its level or
    /// whose tag the catalog does not define, role identifiers that do not
    /// rise or reach the next identifier, a binding without its role or
    /// at a place that does not fit the role, a user bound twice at one
    /// place) are turned down with `ConfigurationError`.
    pub fn restore(
        catalog: Catalog,
        roles: Vec<Role>,
        bindings: Vec<UserRole>,
        pending: Vec<u64>,
        next_role_id: u64,
    ) -> (r: Result<Engine, AuthzError>)
        requires
            catalog.wf(),
        ensures
            Engine::sound(catalog, roles@, bindings@, next_role_id) ==> r is Ok && {
                &&& r->Ok_0.wf()
                &&& r->Ok_0.catalog() == catalog
                &&& r->Ok_0.roles() == roles@
                &&& r->Ok_0.bindings() == bindings@
                &&& r->Ok_0.pending() == pending@.to_set()
                &&& r->Ok_0.next_role_id() == next_role_id
            },
            !Engine::sound(catalog, roles@, bindings@, next_role_id) ==> r is Err && r->Err_0
                == AuthzError::ConfigurationError,
    {
        if !roles_are_sound(&roles, &catalog, next_role_id) {
            return Err(AuthzError::ConfigurationError);
        }
        if !bindings_are_sound(&bindings, &roles, &catalog, next_role_id) {
            return Err(AuthzError::ConfigurationError);
        }
        Ok(Engine { catalog, roles, bindings, pending, next_role_id })
    }

    /// A copy of the role definitions, in the order in which they were
    /// made.
    pub fn roles_snapshot(&self) -> (out: Vec<Role>)
        ensures
            out@.len() == self.roles().len(),
            forall|k: int| 0 <= k < out@.len() ==> (#[trigger] out@[k])@ == self.roles()[k]@,
    {
        copy_roles(&self.roles)
    }

    /// A copy of the bindings.
    pub fn bindings_snapshot(&self) -> (out: Vec<UserRole>)
        ensures
            out@ == self.bindings(),
    {
        copy_bindings(&self.bindings)
    }

    /// The users that hold an unspent credential for choosing a merchant.
    pub fn pending_snapshot(&self) -> (out: Vec<u64>)
        ensures
            out@.to_set() == self.pending(),
    {
        copy_ids(&self.pending)
    }

    /// The identifier that the next role gets.
    pub fn upcoming_role_id(&self) -> (id: u64)
        ensures
            id == self.next_role_id(),
    {
        self.next_role_id
    }
}

/// Computes [`Lineage::shape`].
pub fn lineage_level(place: &Lineage) -> (level: ScopeLevel)
    ensures
        level == place.shape(),
{
    if place.merchant_id.is_none() {
        ScopeLevel::Organization
    } else if place.profile_id.is_none() {
        ScopeLevel::Merchant
    } else {
        ScopeLevel::Profile
    }
}

} // verus!
