//! The permission catalog: which permissions each group tag grants.

use vstd::prelude::*;
use crate::error::AuthzError;

verus! {

/// A fine-grained right that an operation can ask for.
#[derive(Clone, Copy, Debug, PartialEq, Eq, Structural)]
pub enum Permission {
    UsersRead,
    UsersWrite,
    AccountRead,
    AccountWrite,
    PaymentRead,
    PaymentWrite,
    RefundRead,
    RefundWrite,
    AnalyticsRead,
}

/// Number of permissions.
pub const PERMISSION_COUNT: u8 = 9;

impl Permission {
    /// Position of the permission in the list of all permissions.
    pub open spec fn ordinal(self) -> nat {
        match self {
            Permission::UsersRead => 0,
            Permission::UsersWrite => 1,
            Permission::AccountRead => 2,
            Permission::AccountWrite => 3,
            Permission::PaymentRead => 4,
            Permission::PaymentWrite => 5,
            Permission::RefundRead => 6,
            Permission::RefundWrite => 7,
            Permission::AnalyticsRead => 8,
        }
    }

    /// Computes [`Permission::ordinal`].
    pub fn index(self) -> (i: u8)
        ensures
            i == self.ordinal(),
            i < PERMISSION_COUNT,
    {
        match self {
            Permission::UsersRead => 0,
            Permission::UsersWrite => 1,
            Permission::AccountRead => 2,
            Permission::AccountWrite => 3,
            Permission::PaymentRead => 4,
            Permission::PaymentWrite => 5,
            Permission::RefundRead => 6,
            Permission::RefundWrite => 7,
            Permission::AnalyticsRead => 8,
        }
    }

    /// The permission at a position, if the position is in range.
    pub fn from_index(i: u8) -> (p: Option<Permission>)
        ensures
            i < PERMISSION_COUNT ==> p == Some(all_permissions()[i as int]),
            i >= PERMISSION_COUNT ==> p is None,
    {
        match i {
            0 => Some(Permission::UsersRead),
            1 => Some(Permission::UsersWrite),
            2 => Some(Permission::AccountRead),
            3 => Some(Permission::AccountWrite),
            4 => Some(Permission::PaymentRead),
            5 => Some(Permission::PaymentWrite),
            6 => Some(Permission::RefundRead),
            7 => Some(Permission::RefundWrite),
            8 => Some(Permission::AnalyticsRead),
            _ => None,
        }
    }
}

/// All permissions, in the order of their ordinals.
pub open spec fn all_permissions() -> Seq<Permission> {
    seq![
        Permission::UsersRead,
        Permission::UsersWrite,
        Permission::AccountRead,
        Permission::AccountWrite,
        Permission::PaymentRead,
        Permission::PaymentWrite,
        Permission::RefundRead,
        Permission::RefundWrite,
        Permission::AnalyticsRead,
    ]
}

/// Every permission stands in [`all_permissions`] at its ordinal.
pub proof fn all_permissions_complete(p: Permission)
    ensures
        p.ordinal() < all_permissions().len(),
        all_permissions()[p.ordinal() as int] == p,
        all_permissions().len() == PERMISSION_COUNT,
{
}

/// The name of a bundle of permissions that a role can carry.
#[derive(Clone, Copy, Debug, PartialEq, Eq, Structural)]
pub enum PermissionGroupTag {
    UsersRead,
    UsersWrite,
    AccountRead,
    AccountWrite,
    OperationsRead,
    OperationsWrite,
    AnalyticsRead,
}

/// Number of group tags.
pub const TAG_COUNT: u8 = 7;

impl PermissionGroupTag {
    /// Position of the tag in the list of all tags.
    pub open spec fn ordinal(self) -> nat {
        match self {
            PermissionGroupTag::UsersRead => 0,
            PermissionGroupTag::UsersWrite => 1,
            PermissionGroupTag::AccountRead => 2,
            PermissionGroupTag::AccountWrite => 3,
            PermissionGroupTag::OperationsRead => 4,
            PermissionGroupTag::OperationsWrite => 5,
            PermissionGroupTag::AnalyticsRead => 6,
        }
    }

    /// Computes [`PermissionGroupTag::ordinal`].
    pub fn index(self) -> (i: u8)
        ensures
            i == self.ordinal(),
            i < TAG_COUNT,
    {
        match self {
            PermissionGroupTag::UsersRead => 0,
            PermissionGroupTag::UsersWrite => 1,
            PermissionGroupTag::AccountRead => 2,
            PermissionGroupTag::AccountWrite => 3,
            PermissionGroupTag::OperationsRead => 4,
            PermissionGroupTag::OperationsWrite => 5,
            PermissionGroupTag::AnalyticsRead => 6,
        }
    }

    /// The tag at a position, if the position is in range.
    pub fn from_index(i: u8) -> (t: Option<PermissionGroupTag>)
        ensures
            i < TAG_COUNT ==> t == Some(all_tags()[i as int]),
            i >= TAG_COUNT ==> t is None,
    {
        match i {
            0 => Some(PermissionGroupTag::UsersRead),
            1 => Some(PermissionGroupTag::UsersWrite),
            2 => Some(PermissionGroupTag::AccountRead),
            3 => Some(PermissionGroupTag::AccountWrite),
            4 => Some(PermissionGroupTag::OperationsRead),
            5 => Some(PermissionGroupTag::OperationsWrite),
            6 => Some(PermissionGroupTag::AnalyticsRead),
            _ => None,
        }
    }

    /// The tag as it is written in requests and listings.
    pub fn name(self) -> (s: &'static str)
        ensures
            s@ == self.spelling(),
    {
        match self {
            PermissionGroupTag::UsersRead => "users-read",
            PermissionGroupTag::UsersWrite => "users-write",
            PermissionGroupTag::AccountRead => "account-read",
            PermissionGroupTag::AccountWrite => "account-write",
            PermissionGroupTag::OperationsRead => "operations-read",
            PermissionGroupTag::OperationsWrite => "operations-write",
            PermissionGroupTag::AnalyticsRead => "analytics-read",
        }
    }

    /// The characters of [`PermissionGroupTag::name`].
    pub open spec fn spelling(self) -> Seq<char> {
        match self {
            PermissionGroupTag::UsersRead => "users-read"@,
            PermissionGroupTag::UsersWrite => "users-write"@,
            PermissionGroupTag::AccountRead => "account-read"@,
            PermissionGroupTag::AccountWrite => "account-write"@,
            PermissionGroupTag::OperationsRead => "operations-read"@,
            PermissionGroupTag::OperationsWrite => "operations-write"@,
            PermissionGroupTag::AnalyticsRead => "analytics-read"@,
        }
    }

    /// The first tag, in the order of ordinals, that is spelled `text`.
    pub open spec fn spelled(text: Seq<char>) -> Option<PermissionGroupTag> {
        if text == PermissionGroupTag::UsersRead.spelling() {
            Some(PermissionGroupTag::UsersRead)
        } else if text == PermissionGroupTag::UsersWrite.spelling() {
            Some(PermissionGroupTag::UsersWrite)
        } else if text == PermissionGroupTag::AccountRead.spelling() {
            Some(PermissionGroupTag::AccountRead)
        } else if text == PermissionGroupTag::AccountWrite.spelling() {
            Some(PermissionGroupTag::AccountWrite)
        } else if text == PermissionGroupTag::OperationsRead.spelling() {
            Some(PermissionGroupTag::OperationsRead)
        } else if text == PermissionGroupTag::OperationsWrite.spelling() {
            Some(PermissionGroupTag::OperationsWrite)
        } else if text == PermissionGroupTag::AnalyticsRead.spelling() {
            Some(PermissionGroupTag::AnalyticsRead)
        } else {
            None
        }
    }

    /// Reads a tag from its name; a text that names no tag gives `None`.
    pub fn parse(text: &str) -> (t: Option<PermissionGroupTag>)
        ensures
            t == PermissionGroupTag::spelled(text@),
    {
        let owned: String = text.to_owned();
        let mut i: u8 = 0;
        while i < TAG_COUNT
            invariant
                i <= TAG_COUNT,
                owned@ == text@,
                forall|k: int| 0 <= k < i ==> (#[trigger] all_tags()[k]).spelling() != text@,
            decreases TAG_COUNT - i,
        {
            let candidate = PermissionGroupTag::from_index(i);
            match candidate {
                Some(tag) => {
                    let written: String = tag.name().to_owned();
                    if written == owned {
                        assert(all_tags()[0] == PermissionGroupTag::UsersRead);
                        assert(all_tags()[1] == PermissionGroupTag::UsersWrite);
                        assert(all_tags()[2] == PermissionGroupTag::AccountRead);
                        assert(all_tags()[3] == PermissionGroupTag::AccountWrite);
                        assert(all_tags()[4] == PermissionGroupTag::OperationsRead);
                        assert(all_tags()[5] == PermissionGroupTag::OperationsWrite);
                        assert(all_tags()[6] == PermissionGroupTag::AnalyticsRead);
                        return Some(tag);
                    }
                },
                None => {},
            }
            i = i + 1;
        }
        assert(all_tags()[0] == PermissionGroupTag::UsersRead);
        assert(all_tags()[1] == PermissionGroupTag::UsersWrite);
        assert(all_tags()[2] == PermissionGroupTag::AccountRead);
        assert(all_tags()[3] == PermissionGroupTag::AccountWrite);
        assert(all_tags()[4] == PermissionGroupTag::OperationsRead);
        assert(all_tags()[5] == PermissionGroupTag::OperationsWrite);
        assert(all_tags()[6] == PermissionGroupTag::AnalyticsRead);
        None
    }
}

/// All group tags, in the order of their ordinals.
pub open spec fn all_tags() -> Seq<PermissionGroupTag> {
    seq![
        PermissionGroupTag::UsersRead,
        PermissionGroupTag::UsersWrite,
        PermissionGroupTag::AccountRead,
        PermissionGroupTag::AccountWrite,
        PermissionGroupTag::OperationsRead,
        PermissionGroupTag::OperationsWrite,
        PermissionGroupTag::AnalyticsRead,
    ]
}

/// Every tag stands in [`all_tags`] at its ordinal.
pub proof fn all_tags_complete(t: PermissionGroupTag)
    ensures
        t.ordinal() < all_tags().len(),
        all_tags()[t.ordinal() as int] == t,
        all_tags().len() == TAG_COUNT,
{
}


/// What one group tag stands for.
#[derive(Debug)]
pub struct GroupEntry {
    /// Words for a human reader.
    pub description: String,
    /// The permissions that the tag grants.
    pub permissions: Vec<Permission>,
}

/// One line of a listing of the catalog.
#[derive(Debug)]
pub struct GroupInfo {
    pub tag: PermissionGroupTag,
    pub description: String,
    pub permissions: Vec<Permission>,
}

/// The mapping from group tags to permissions. It is filled once, before
/// any request is served, and only read afterwards.
pub struct Catalog {
    slots: Vec<Option<GroupEntry>>,
}

/// `s.take(i + 1)` filtered is `s.take(i)` filtered, followed by `s[i]`
/// where the predicate holds of it.
pub proof fn filter_take_step<A>(s: Seq<A>, pred: spec_fn(A) -> bool, i: int)
    requires
        0 <= i < s.len(),
    ensures
        s.take(i + 1).filter(pred) == if pred(s[i]) {
            s.take(i).filter(pred).push(s[i])
        } else {
            s.take(i).filter(pred)
        },
        s.take(0).filter(pred) == Seq::<A>::empty(),
        s.take(s.len() as int) == s,
{
    reveal(Seq::filter);
    assert(s.take(i + 1).drop_last() =~= s.take(i));
    assert(s.take(i + 1).last() == s[i]);
    assert(s.take(0) =~= Seq::<A>::empty());
    assert(s.take(s.len() as int) =~= s);
}

/// Whether `p` occurs in `perms`.
pub fn holds(perms: &Vec<Permission>, p: Permission) -> (b: bool)
    ensures
        b == perms@.contains(p),
{
    let mut i: usize = 0;
    while i < perms.len()
        invariant
            i <= perms.len(),
            forall|k: int| 0 <= k < i ==> perms@[k] != p,
        decreases perms.len() - i,
    {
        if perms[i] == p {
            return true;
        }
        i = i + 1;
    }
    false
}

/// Whether `t` occurs in `tags`.
pub fn has_tag(tags: &Vec<PermissionGroupTag>, t: PermissionGroupTag) -> (b: bool)
    ensures
        b == tags@.contains(t),
{
    let mut i: usize = 0;
    while i < tags.len()
        invariant
            i <= tags.len(),
            forall|k: int| 0 <= k < i ==> tags@[k] != t,
        decreases tags.len() - i,
    {
        if tags[i] == t {
            return true;
        }
        i = i + 1;
    }
    false
}

/// The predicate "occurs in `tags`".
pub open spec fn member_of(tags: Seq<PermissionGroupTag>) -> spec_fn(PermissionGroupTag) -> bool {
    |t: PermissionGroupTag| tags.contains(t)
}

/// The tags of `tags` as an ordered set: each one once, in the order of
/// their ordinals.
pub open spec fn canonical_tags(tags: Seq<PermissionGroupTag>) -> Seq<PermissionGroupTag> {
    all_tags().filter(member_of(tags))
}

/// Computes [`canonical_tags`].
pub fn normalize_tags(tags: &Vec<PermissionGroupTag>) -> (out: Vec<PermissionGroupTag>)
    ensures
        out@ == canonical_tags(tags@),
{
    let mut out: Vec<PermissionGroupTag> = Vec::new();
    let mut i: u8 = 0;
    proof {
        filter_take_step(all_tags(), member_of(tags@), 0);
    }
    while i < TAG_COUNT
        invariant
            i <= TAG_COUNT,
            out@ == all_tags().take(i as int).filter(member_of(tags@)),
        decreases TAG_COUNT - i,
    {
        proof {
            filter_take_step(all_tags(), member_of(tags@), i as int);
        }
        match PermissionGroupTag::from_index(i) {
            Some(t) => {
                if has_tag(tags, t) {
                    out.push(t);
                }
            },
            None => {},
        }
        i = i + 1;
    }
    out
}

/// A canonical list holds exactly the tags of the list it was made from.
pub proof fn canonical_tags_same_members(tags: Seq<PermissionGroupTag>, t: PermissionGroupTag)
    ensures
        canonical_tags(tags).contains(t) <==> tags.contains(t),
{
    all_tags_complete(t);
    if tags.contains(t) {
        assert(member_of(tags)(t));
        all_tags().lemma_filter_contains(member_of(tags), t.ordinal() as int);
    }
    if canonical_tags(tags).contains(t) {
        let k = choose|k: int| 0 <= k < canonical_tags(tags).len() && canonical_tags(tags)[k] == t;
        all_tags().lemma_filter_pred(member_of(tags), k);
    }
}

impl Catalog {
    /// The entries of the catalog, one place for each tag in the order of
    /// the tags' ordinals; an undefined tag has an empty place.
    pub closed spec fn slots(&self) -> Seq<Option<GroupEntry>> {
        self.slots@
    }

    /// The catalog has a place for every tag.
    pub open spec fn wf(&self) -> bool {
        self.slots().len() == TAG_COUNT
    }

    /// The catalog knows the tag.
    pub open spec fn defines(&self, tag: PermissionGroupTag) -> bool {
        self.slots()[tag.ordinal() as int] is Some
    }

    /// The description that the catalog gives for a tag it defines.
    pub open spec fn description_of(&self, tag: PermissionGroupTag) -> Seq<char> {
        self.slots()[tag.ordinal() as int]->0.description@
    }

    /// The permissions listed for a tag that the catalog defines.
    pub open spec fn bundle(&self, tag: PermissionGroupTag) -> Seq<Permission> {
        self.slots()[tag.ordinal() as int]->0.permissions@
    }

    /// The tag is defined and grants the permission.
    pub open spec fn grants(&self, tag: PermissionGroupTag, p: Permission) -> bool {
        self.defines(tag) && self.bundle(tag).contains(p)
    }

    /// Some tag of `tags` grants the permission.
    pub open spec fn granted(&self, tags: Seq<PermissionGroupTag>, p: Permission) -> bool {
        exists|i: int| 0 <= i < tags.len() && self.grants(#[trigger] tags[i], p)
    }

    /// The predicate "granted by some tag of `tags`".
    pub open spec fn grant_pred(&self, tags: Seq<PermissionGroupTag>) -> spec_fn(Permission) -> bool {
        |p: Permission| self.granted(tags, p)
    }

    /// The permissions that a set of tags grants: each one once, in the
    /// order of their ordinals.
    pub open spec fn permitted(&self, tags: Seq<PermissionGroupTag>) -> Seq<Permission> {
        all_permissions().filter(self.grant_pred(tags))
    }

    /// Every tag of `tags` is defined.
    pub open spec fn knows_all(&self, tags: Seq<PermissionGroupTag>) -> bool {
        forall|i: int| 0 <= i < tags.len() ==> self.defines(#[trigger] tags[i])
    }

    /// The predicate "defined by this catalog".
    pub open spec fn defined_pred(&self) -> spec_fn(PermissionGroupTag) -> bool {
        |t: PermissionGroupTag| self.defines(t)
    }

    /// The tags that the catalog defines, in the order of their ordinals.
    pub open spec fn defined_tags(&self) -> Seq<PermissionGroupTag> {
        all_tags().filter(self.defined_pred())
    }

    /// A catalog that defines no tag.
    pub fn new() -> (c: Catalog)
        ensures
            c.wf(),
            forall|t: PermissionGroupTag| !c.defines(t),
            c.slots() == Seq::new(TAG_COUNT as nat, |i: int| None::<GroupEntry>),
    {
        let mut slots: Vec<Option<GroupEntry>> = Vec::new();
        let mut i: u8 = 0;
        while i < TAG_COUNT
            invariant
                i <= TAG_COUNT,
                slots@.len() == i,
                forall|k: int| 0 <= k < i ==> slots@[k] is None,
            decreases TAG_COUNT - i,
        {
            slots.push(None);
            i = i + 1;
        }
        assert(slots@ =~= Seq::new(TAG_COUNT as nat, |i: int| None::<GroupEntry>));
        Catalog { slots }
    }

    /// Defines a tag. A tag can be defined once: a second definition would
    /// contradict the first, is turned down with `ConfigurationError`, and
    /// leaves the catalog as it was.
    pub fn define(
        &mut self,
        tag: PermissionGroupTag,
        description: String,
        permissions: Vec<Permission>,
    ) -> (r: Result<(), AuthzError>)
        requires
            old(self).wf(),
        ensures
            final(self).wf(),
            old(self).defines(tag) ==> r == Err::<(), AuthzError>(AuthzError::ConfigurationError)
                && final(self).slots() == old(self).slots(),
            !old(self).defines(tag) ==> r is Ok && final(self).slots() == old(self).slots().update(
                tag.ordinal() as int,
                Some(GroupEntry { description, permissions }),
            ),
    {
        let i: usize = tag.index() as usize;
        if self.slots[i].is_some() {
            return Err(AuthzError::ConfigurationError);
        }
        self.slots.set(i, Some(GroupEntry { description, permissions }));
        Ok(())
    }

    /// Computes [`Catalog::defines`].
    pub fn is_defined(&self, tag: PermissionGroupTag) -> (b: bool)
        requires
            self.wf(),
        ensures
            b == self.defines(tag),
    {
        self.slots[tag.index() as usize].is_some()
    }

    /// What the catalog says of one tag; `None` for a tag it does not define.
    pub fn describe(&self, tag: PermissionGroupTag) -> (r: Option<GroupInfo>)
        requires
            self.wf(),
        ensures
            self.defines(tag) <==> r is Some,
            r matches Some(info) ==> {
                &&& info.tag == tag
                &&& info.description@ == self.description_of(tag)
                &&& info.permissions@ == self.bundle(tag)
            },
    {
        match &self.slots[tag.index() as usize] {
            Some(entry) => Some(
                GroupInfo {
                    tag,
                    description: entry.description.clone(),
                    permissions: copy_permissions(&entry.permissions),
                },
            ),
            None => None,
        }
    }

    /// The permissions that the standard catalog lists for a tag.
    pub open spec fn standard_bundle(tag: PermissionGroupTag) -> Seq<Permission> {
        match tag {
            PermissionGroupTag::UsersRead => seq![Permission::UsersRead],
            PermissionGroupTag::UsersWrite => seq![Permission::UsersRead, Permission::UsersWrite],
            PermissionGroupTag::AccountRead => seq![Permission::AccountRead],
            PermissionGroupTag::AccountWrite => seq![
                Permission::AccountRead,
                Permission::AccountWrite,
            ],
            PermissionGroupTag::OperationsRead => seq![
                Permission::PaymentRead,
                Permission::RefundRead,
            ],
            PermissionGroupTag::OperationsWrite => seq![
                Permission::PaymentRead,
                Permission::PaymentWrite,
                Permission::RefundRead,
                Permission::RefundWrite,
            ],
            PermissionGroupTag::AnalyticsRead => seq![Permission::AnalyticsRead],
        }
    }

    /// Computes [`Catalog::standard_bundle`].
    pub fn standard_permissions(tag: PermissionGroupTag) -> (v: Vec<Permission>)
        ensures
            v@ == Catalog::standard_bundle(tag),
    {
        let mut v: Vec<Permission> = Vec::new();
        match tag {
            PermissionGroupTag::UsersRead => {
                v.push(Permission::UsersRead);
            },
            PermissionGroupTag::UsersWrite => {
                v.push(Permission::UsersRead);
                v.push(Permission::UsersWrite);
            },
            PermissionGroupTag::AccountRead => {
                v.push(Permission::AccountRead);
            },
            PermissionGroupTag::AccountWrite => {
                v.push(Permission::AccountRead);
                v.push(Permission::AccountWrite);
            },
            PermissionGroupTag::OperationsRead => {
                v.push(Permission::PaymentRead);
                v.push(Permission::RefundRead);
            },
            PermissionGroupTag::OperationsWrite => {
                v.push(Permission::PaymentRead);
                v.push(Permission::PaymentWrite);
                v.push(Permission::RefundRead);
                v.push(Permission::RefundWrite);
            },
            PermissionGroupTag::AnalyticsRead => {
                v.push(Permission::AnalyticsRead);
            },
        }
        assert(v@ =~= Catalog::standard_bundle(tag));
        v
    }

    /// The words of the standard catalog for a tag.
    pub fn standard_description(tag: PermissionGroupTag) -> (s: &'static str)
        ensures
            s@ == Catalog::standard_wording(tag),
    {
        match tag {
            PermissionGroupTag::UsersRead => "View users and roles",
            PermissionGroupTag::UsersWrite => "Invite users, assign roles and manage role definitions",
            PermissionGroupTag::AccountRead => "View merchant account details",
            PermissionGroupTag::AccountWrite => "Change merchant account details",
            PermissionGroupTag::OperationsRead => "View payments and refunds",
            PermissionGroupTag::OperationsWrite => "Create and change payments and refunds",
            PermissionGroupTag::AnalyticsRead => "View analytics",
        }
    }

    /// The characters of [`Catalog::standard_description`].
    pub open spec fn standard_wording(tag: PermissionGroupTag) -> Seq<char> {
        match tag {
            PermissionGroupTag::UsersRead => "View users and roles"@,
            PermissionGroupTag::UsersWrite => "Invite users, assign roles and manage role definitions"@,
            PermissionGroupTag::AccountRead => "View merchant account details"@,
            PermissionGroupTag::AccountWrite => "Change merchant account details"@,
            PermissionGroupTag::OperationsRead => "View payments and refunds"@,
            PermissionGroupTag::OperationsWrite => "Create and change payments and refunds"@,
            PermissionGroupTag::AnalyticsRead => "View analytics"@,
        }
    }

    /// The catalog that defines every tag with its standard permissions and
    /// words.
    pub fn standard() -> (c: Catalog)
        ensures
            c.wf(),
            forall|t: PermissionGroupTag|
                {
                    &&& #[trigger] c.defines(t)
                    &&& c.bundle(t) == Catalog::standard_bundle(t)
                    &&& c.description_of(t) == Catalog::standard_wording(t)
                },
    {
        let mut c = Catalog::new();
        let mut i: u8 = 0;
        while i < TAG_COUNT
            invariant
                i <= TAG_COUNT,
                c.wf(),
                forall|k: int| i <= k < TAG_COUNT ==> c.slots()[k] is None,
                forall|k: int|
                    0 <= k < i ==> {
                        &&& (#[trigger] c.slots()[k]) is Some
                        &&& c.slots()[k]->0.permissions@ == Catalog::standard_bundle(all_tags()[k])
                        &&& c.slots()[k]->0.description@ == Catalog::standard_wording(all_tags()[k])
                    },
            decreases TAG_COUNT - i,
        {
            match PermissionGroupTag::from_index(i) {
                Some(t) => {
                    let words: String = Catalog::standard_description(t).to_owned();
                    let perms = Catalog::standard_permissions(t);
                    let _ = c.define(t, words, perms);
                },
                None => {},
            }
            i = i + 1;
        }
        proof {
            assert forall|t: PermissionGroupTag|
                {
                    &&& #[trigger] c.defines(t)
                    &&& c.bundle(t) == Catalog::standard_bundle(t)
                    &&& c.description_of(t) == Catalog::standard_wording(t)
                } by {
                all_tags_complete(t);
                assert(c.slots()[t.ordinal() as int] is Some);
            }
        }
        c
    }

    /// Computes [`Catalog::knows_all`].
    pub fn knows(&self, tags: &Vec<PermissionGroupTag>) -> (b: bool)
        requires
            self.wf(),
        ensures
            b == self.knows_all(tags@),
    {
        let mut i: usize = 0;
        while i < tags.len()
            invariant
                i <= tags.len(),
                self.wf(),
                forall|k: int| 0 <= k < i ==> self.defines(#[trigger] tags@[k]),
            decreases tags.len() - i,
        {
            if !self.is_defined(tags[i]) {
                return false;
            }
            i = i + 1;
        }
        true
    }

    /// Computes [`Catalog::grants`].
    pub fn tag_grants(&self, tag: PermissionGroupTag, p: Permission) -> (b: bool)
        requires
            self.wf(),
        ensures
            b == self.grants(tag, p),
    {
        match &self.slots[tag.index() as usize] {
            Some(entry) => holds(&entry.permissions, p),
            None => false,
        }
    }

    /// Computes [`Catalog::granted`].
    pub fn any_grants(&self, tags: &Vec<PermissionGroupTag>, p: Permission) -> (b: bool)
        requires
            self.wf(),
        ensures
            b == self.granted(tags@, p),
    {
        let mut i: usize = 0;
        while i < tags.len()
            invariant
                i <= tags.len(),
                self.wf(),
                forall|k: int| 0 <= k < i ==> !self.grants(#[trigger] tags@[k], p),
            decreases tags.len() - i,
        {
            if self.tag_grants(tags[i], p) {
                return true;
            }
            i = i + 1;
        }
        false
    }

    /// What asking for the permissions of `tags` answers.
    pub open spec fn permissions_for_result(
        &self,
        tags: Seq<PermissionGroupTag>,
        r: Result<Vec<Permission>, AuthzError>,
    ) -> bool {
        if self.knows_all(tags) {
            r is Ok && r->Ok_0@ == self.permitted(tags)
        } else {
            r == Err::<Vec<Permission>, AuthzError>(AuthzError::ConfigurationError)
        }
    }

    /// The permissions that `tags` grant together, each once and in the
    /// order of their ordinals. A tag that the catalog does not define
    /// shows that the catalog and its users disagree: the answer is then
    /// `ConfigurationError`.
    pub fn permissions_for(&self, tags: &Vec<PermissionGroupTag>) -> (r: Result<
        Vec<Permission>,
        AuthzError,
    >)
        requires
            self.wf(),
        ensures
            self.permissions_for_result(tags@, r),
    {
        if !self.knows(tags) {
            return Err(AuthzError::ConfigurationError);
        }
        let mut out: Vec<Permission> = Vec::new();
        let mut i: u8 = 0;
        proof {
            filter_take_step(all_permissions(), self.grant_pred(tags@), 0);
        }
        while i < PERMISSION_COUNT
            invariant
                i <= PERMISSION_COUNT,
                self.wf(),
                out@ == all_permissions().take(i as int).filter(self.grant_pred(tags@)),
            decreases PERMISSION_COUNT - i,
        {
            proof {
                filter_take_step(all_permissions(), self.grant_pred(tags@), i as int);
            }
            match Permission::from_index(i) {
                Some(p) => {
                    if self.any_grants(tags, p) {
                        out.push(p);
                    }
                },
                None => {},
            }
            i = i + 1;
        }
        Ok(out)
    }

    /// The defined tags in the order of their ordinals, each with its
    /// description and its permissions as the catalog holds them.
    pub fn all_group_tags_with_descriptions(&self) -> (out: Vec<GroupInfo>)
        requires
            self.wf(),
        ensures
            out@.len() == self.defined_tags().len(),
            forall|k: int|
                0 <= k < out@.len() ==> {
                    &&& (#[trigger] out@[k]).tag == self.defined_tags()[k]
                    &&& out@[k].description@ == self.description_of(out@[k].tag)
                    &&& out@[k].permissions@ == self.bundle(out@[k].tag)
                },
    {
        let mut out: Vec<GroupInfo> = Vec::new();
        let mut i: u8 = 0;
        proof {
            filter_take_step(all_tags(), self.defined_pred(), 0);
        }
        while i < TAG_COUNT
            invariant
                i <= TAG_COUNT,
                self.wf(),
                out@.len() == all_tags().take(i as int).filter(self.defined_pred()).len(),
                forall|k: int|
                    0 <= k < out@.len() ==> {
                        &&& (#[trigger] out@[k]).tag == all_tags().take(i as int).filter(
                            self.defined_pred(),
                        )[k]
                        &&& out@[k].description@ == self.description_of(out@[k].tag)
                        &&& out@[k].permissions@ == self.bundle(out@[k].tag)
                    },
            decreases TAG_COUNT - i,
        {
            proof {
                filter_take_step(all_tags(), self.defined_pred(), i as int);
            }
            match PermissionGroupTag::from_index(i) {
                Some(t) => {
                    match &self.slots[t.index() as usize] {
                        Some(entry) => {
                            let permissions = copy_permissions(&entry.permissions);
                            out.push(
                                GroupInfo { tag: t, description: entry.description.clone(), permissions },
                            );
                        },
                        None => {},
                    }
                },
                None => {},
            }
            i = i + 1;
        }
        out
    }
}

/// A copy of a list of permissions.
pub fn copy_permissions(perms: &Vec<Permission>) -> (out: Vec<Permission>)
    ensures
        out@ == perms@,
{
    let mut out: Vec<Permission> = Vec::new();
    let mut i: usize = 0;
    while i < perms.len()
        invariant
            i <= perms.len(),
            out@ == perms@.take(i as int),
        decreases perms.len() - i,
    {
        out.push(perms[i]);
        assert(perms@.take(i + 1) =~= perms@.take(i as int).push(perms@[i as int]));
        i = i + 1;
    }
    assert(perms@.take(perms@.len() as int) =~= perms@);
    out
}

/// A copy of a list of tags.
pub fn copy_tags(tags: &Vec<PermissionGroupTag>) -> (out: Vec<PermissionGroupTag>)
    ensures
        out@ == tags@,
{
    let mut out: Vec<PermissionGroupTag> = Vec::new();
    let mut i: usize = 0;
    while i < tags.len()
        invariant
            i <= tags.len(),
            out@ == tags@.take(i as int),
        decreases tags.len() - i,
    {
        out.push(tags[i]);
        assert(tags@.take(i + 1) =~= tags@.take(i as int).push(tags@[i as int]));
        i = i + 1;
    }
    assert(tags@.take(tags@.len() as int) =~= tags@);
    out
}

} // verus!
