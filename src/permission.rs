//! Role based permissions: which roles of a group allow which actions on
//! members and invites.
use vstd::prelude::*;
use crate::model::{ApiError, ErrorCode, roles_view};
use crate::principal::Principal;
use crate::store::Store;

verus! {

/// An action on a resource.
#[derive(Debug, Clone, Copy, PartialEq, Eq, Structural)]
pub enum PermissionActionType {
    Write,
    Read,
    Edit,
    Delete,
}

/// The resources of this store that permissions speak of.
#[derive(Debug, Clone, Copy, PartialEq, Eq, Structural)]
pub enum PermissionType {
    Member,
    Invite,
}

/// Which actions a permission allows.
#[derive(Debug, Clone, Copy, PartialEq, Eq, Structural)]
pub struct PermissionActions {
    pub write: bool,
    pub read: bool,
    pub edit: bool,
    pub delete: bool,
}

/// The actions allowed on the resource called `name`.
#[derive(Debug, Clone)]
pub struct Permission {
    pub name: String,
    pub protected: bool,
    pub actions: PermissionActions,
}

/// A role that a group defines, with its permissions.
#[derive(Debug, Clone)]
pub struct GroupRole {
    pub name: String,
    pub protected: bool,
    pub permissions: Vec<Permission>,
    pub color: String,
    pub index: Option<u64>,
}

/// The name under which permissions on a resource are listed.
pub open spec fn resource_name(t: PermissionType) -> Seq<char> {
    match t {
        PermissionType::Member => seq!['m', 'e', 'm', 'b', 'e', 'r'],
        PermissionType::Invite => seq!['i', 'n', 'v', 'i', 't', 'e'],
    }
}

pub fn resource_name_of(t: PermissionType) -> (r: String)
    ensures
        r@ == resource_name(t),
{
    match t {
        PermissionType::Member => {
            let r = String::from_str("member");
            proof {
                reveal_strlit("member");
            }
            r
        },
        PermissionType::Invite => {
            let r = String::from_str("invite");
            proof {
                reveal_strlit("invite");
            }
            r
        },
    }
}

pub open spec fn allows(a: PermissionActions, action: PermissionActionType) -> bool {
    match action {
        PermissionActionType::Write => a.write,
        PermissionActionType::Read => a.read,
        PermissionActionType::Edit => a.edit,
        PermissionActionType::Delete => a.delete,
    }
}

/// `j` is the first role of `roles` called `name`.
pub open spec fn is_first_named(roles: Seq<GroupRole>, name: Seq<char>, j: int) -> bool {
    &&& 0 <= j < roles.len()
    &&& roles[j].name@ == name
    &&& forall|k: int| 0 <= k < j ==> (#[trigger] roles[k]).name@ != name
}

/// The role lists a permission on `resource` that allows `action`.
pub open spec fn grants(role: GroupRole, resource: Seq<char>, action: PermissionActionType) -> bool {
    exists|p: int|
        0 <= p < role.permissions@.len() && (#[trigger] role.permissions@[p]).name@ == resource && allows(
            role.permissions@[p].actions,
            action,
        )
}

/// Some role that the member holds is defined, first under its name in
/// `group_roles`, with a permission on the resource that allows the action.
pub open spec fn has_permission_spec(
    member_roles: Seq<Seq<char>>,
    resource: PermissionType,
    group_roles: Seq<GroupRole>,
    action: PermissionActionType,
) -> bool {
    exists|i: int, j: int|
        0 <= i < member_roles.len() && #[trigger] is_first_named(group_roles, member_roles[i], j) && grants(
            group_roles[j],
            resource_name(resource),
            action,
        )
}

/// The first role called `name`, if any.
pub fn find_role(roles: &Vec<GroupRole>, name: &String) -> (r: Option<usize>)
    ensures
        r is None ==> forall|k: int| 0 <= k < roles@.len() ==> (#[trigger] roles@[k]).name@ != name@,
        r matches Some(j) ==> is_first_named(roles@, name@, j as int),
{
    let mut k: usize = 0;
    while k < roles.len()
        invariant
            k <= roles@.len(),
            forall|m: int| 0 <= m < k ==> (#[trigger] roles@[m]).name@ != name@,
        decreases roles@.len() - k,
    {
        if roles[k].name == *name {
            return Some(k);
        }
        k = k + 1;
    }
    None
}

/// Whether the role lists a permission on the resource allowing the action.
pub fn role_grants(role: &GroupRole, resource: &String, action: PermissionActionType) -> (r: bool)
    ensures
        r == grants(*role, resource@, action),
{
    let mut p: usize = 0;
    while p < role.permissions.len()
        invariant
            p <= role.permissions@.len(),
            forall|q: int| 0 <= q < p ==> !((#[trigger] role.permissions@[q]).name@ == resource@ && allows(
                role.permissions@[q].actions,
                action,
            )),
        decreases role.permissions@.len() - p,
    {
        let perm = &role.permissions[p];
        let a = perm.actions;
        let ok = match action {
            PermissionActionType::Write => a.write,
            PermissionActionType::Read => a.read,
            PermissionActionType::Edit => a.edit,
            PermissionActionType::Delete => a.delete,
        };
        if ok && perm.name == *resource {
            return true;
        }
        p = p + 1;
    }
    false
}

/// Whether the member's roles allow `action` on `resource`: any role it holds,
/// looked up by name in `group_roles`, that allows it is enough.
pub fn has_permission(
    member_roles: &Vec<String>,
    resource: PermissionType,
    group_roles: &Vec<GroupRole>,
    action: PermissionActionType,
) -> (r: bool)
    ensures
        r == has_permission_spec(roles_view(member_roles@), resource, group_roles@, action),
{
    let name = resource_name_of(resource);
    let ghost mr = roles_view(member_roles@);
    let mut i: usize = 0;
    while i < member_roles.len()
        invariant
            i <= member_roles@.len(),
            mr == roles_view(member_roles@),
            name@ == resource_name(resource),
            forall|a: int, j: int|
                0 <= a < i && #[trigger] is_first_named(group_roles@, mr[a], j) ==> !grants(group_roles@[j], name@, action),
        decreases member_roles@.len() - i,
    {
        match find_role(group_roles, &member_roles[i]) {
            None => {
                assert forall|a: int, j: int|
                    0 <= a <= i && #[trigger] is_first_named(group_roles@, mr[a], j) implies !grants(group_roles@[j], name@, action) by {
                    if a == i {
                        assert(group_roles@[j].name@ == mr[a]);
                    }
                }
            },
            Some(j) => {
                if role_grants(&group_roles[j], &name, action) {
                    assert(is_first_named(group_roles@, mr[i as int], j as int));
                    return true;
                }
                assert forall|a: int, j2: int|
                    0 <= a <= i && #[trigger] is_first_named(group_roles@, mr[a], j2) implies !grants(group_roles@[j2], name@, action) by {
                    if a == i {
                        if j2 < j {
                            assert(group_roles@[j2].name@ != mr[a]);
                        } else if j < j2 {
                            assert(group_roles@[j as int].name@ != mr[a]);
                        }
                    }
                }
            },
        }
        i = i + 1;
    }
    false
}

/// What a permission check answers: the caller's roles in the group, looked up
/// in the group's roles followed by the built-in ones, must allow the action.
pub open spec fn permission_outcome(
    s: Store,
    caller: Seq<u8>,
    group: Seq<u8>,
    group_roles: Result<Seq<GroupRole>, Seq<char>>,
    default_roles: Seq<GroupRole>,
    action: PermissionActionType,
    resource: PermissionType,
    r: Result<Principal, ApiError>,
) -> bool {
    let refused = Err::<Principal, ApiError>(ApiError::Unauthorized(ErrorCode::NoPermission));
    &&& !s.has_member(caller) ==> r == refused
    &&& s.has_member(caller) && group_roles is Err ==> r == refused
    &&& s.has_member(caller) ==> (group_roles matches Ok(gr) ==> {
        let roles = s.entries@[s.member_of(caller)].1.roles_in(group);
        &&& has_permission_spec(roles, resource, gr + default_roles, action) ==> (r matches Ok(p) && p@ == caller)
        &&& !has_permission_spec(roles, resource, gr + default_roles, action) ==> r == refused
    })
}

pub open spec fn roles_result_view(group_roles: Result<Vec<GroupRole>, String>) -> Result<Seq<GroupRole>, Seq<char>> {
    match group_roles {
        Ok(v) => Ok(v@),
        Err(e) => Err(e@),
    }
}

impl Store {
    /// Checks that the caller may perform `action` on `resource` in a group.
    /// `group_roles` is what the group's shard answered; `default_roles` the
    /// built-in roles that every group has.
    pub fn check_permission(
        &self,
        caller: &Principal,
        group: &Principal,
        group_roles: Result<Vec<GroupRole>, String>,
        default_roles: Vec<GroupRole>,
        action: PermissionActionType,
        resource: PermissionType,
    ) -> (r: Result<Principal, ApiError>)
        requires
            self.wf(),
        ensures
            permission_outcome(*self, caller@, group@, roles_result_view(group_roles), default_roles@, action, resource, r),
    {
        let ghost gv = roles_result_view(group_roles);
        let (principal, roles) = match self.get_member_roles_by_principal(caller, group) {
            Err(_) => return Err(ApiError::Unauthorized(ErrorCode::NoPermission)),
            Ok(x) => x,
        };
        let mut all = match group_roles {
            Err(_) => return Err(ApiError::Unauthorized(ErrorCode::NoPermission)),
            Ok(v) => v,
        };
        let mut defaults = default_roles;
        all.append(&mut defaults);
        if has_permission(&roles, resource, &all, action) {
            Ok(principal)
        } else {
            Err(ApiError::Unauthorized(ErrorCode::NoPermission))
        }
    }

    /// Checks that the caller may write members in a group.
    pub fn can_write_member(
        &self,
        caller: &Principal,
        group: &Principal,
        group_roles: Result<Vec<GroupRole>, String>,
        default_roles: Vec<GroupRole>,
    ) -> (r: Result<Principal, ApiError>)
        requires
            self.wf(),
        ensures
            permission_outcome(*self, caller@, group@, roles_result_view(group_roles), default_roles@,
                PermissionActionType::Write, PermissionType::Member, r),
    {
        self.check_permission(caller, group, group_roles, default_roles, PermissionActionType::Write, PermissionType::Member)
    }

    /// Checks that the caller may write invites in a group.
    pub fn can_write_invite(
        &self,
        caller: &Principal,
        group: &Principal,
        group_roles: Result<Vec<GroupRole>, String>,
        default_roles: Vec<GroupRole>,
    ) -> (r: Result<Principal, ApiError>)
        requires
            self.wf(),
        ensures
            permission_outcome(*self, caller@, group@, roles_result_view(group_roles), default_roles@,
                PermissionActionType::Write, PermissionType::Invite, r),
    {
        self.check_permission(caller, group, group_roles, default_roles, PermissionActionType::Write, PermissionType::Invite)
    }

    /// Checks that the caller may read members in a group.
    pub fn can_read_member(
        &self,
        caller: &Principal,
        group: &Principal,
        group_roles: Result<Vec<GroupRole>, String>,
        default_roles: Vec<GroupRole>,
    ) -> (r: Result<Principal, ApiError>)
        requires
            self.wf(),
        ensures
            permission_outcome(*self, caller@, group@, roles_result_view(group_roles), default_roles@,
                PermissionActionType::Read, PermissionType::Member, r),
    {
        self.check_permission(caller, group, group_roles, default_roles, PermissionActionType::Read, PermissionType::Member)
    }

    /// Checks that the caller may read invites in a group.
    pub fn can_read_invite(
        &self,
        caller: &Principal,
        group: &Principal,
        group_roles: Result<Vec<GroupRole>, String>,
        default_roles: Vec<GroupRole>,
    ) -> (r: Result<Principal, ApiError>)
        requires
            self.wf(),
        ensures
            permission_outcome(*self, caller@, group@, roles_result_view(group_roles), default_roles@,
                PermissionActionType::Read, PermissionType::Invite, r),
    {
        self.check_permission(caller, group, group_roles, default_roles, PermissionActionType::Read, PermissionType::Invite)
    }

    /// Checks that the caller may edit members in a group.
    pub fn can_edit_member(
        &self,
        caller: &Principal,
        group: &Principal,
        group_roles: Result<Vec<GroupRole>, String>,
        default_roles: Vec<GroupRole>,
    ) -> (r: Result<Principal, ApiError>)
        requires
            self.wf(),
        ensures
            permission_outcome(*self, caller@, group@, roles_result_view(group_roles), default_roles@,
                PermissionActionType::Edit, PermissionType::Member, r),
    {
        self.check_permission(caller, group, group_roles, default_roles, PermissionActionType::Edit, PermissionType::Member)
    }

    /// Checks that the caller may edit invites in a group.
    pub fn can_edit_invite(
        &self,
        caller: &Principal,
        group: &Principal,
        group_roles: Result<Vec<GroupRole>, String>,
        default_roles: Vec<GroupRole>,
    ) -> (r: Result<Principal, ApiError>)
        requires
            self.wf(),
        ensures
            permission_outcome(*self, caller@, group@, roles_result_view(group_roles), default_roles@,
                PermissionActionType::Edit, PermissionType::Invite, r),
    {
        self.check_permission(caller, group, group_roles, default_roles, PermissionActionType::Edit, PermissionType::Invite)
    }

    /// Checks that the caller may delete members in a group.
    pub fn can_delete_member(
        &self,
        caller: &Principal,
        group: &Principal,
        group_roles: Result<Vec<GroupRole>, String>,
        default_roles: Vec<GroupRole>,
    ) -> (r: Result<Principal, ApiError>)
        requires
            self.wf(),
        ensures
            permission_outcome(*self, caller@, group@, roles_result_view(group_roles), default_roles@,
                PermissionActionType::Delete, PermissionType::Member, r),
    {
        self.check_permission(caller, group, group_roles, default_roles, PermissionActionType::Delete, PermissionType::Member)
    }

    /// Checks that the caller may delete invites in a group.
    pub fn can_delete_invite(
        &self,
        caller: &Principal,
        group: &Principal,
        group_roles: Result<Vec<GroupRole>, String>,
        default_roles: Vec<GroupRole>,
    ) -> (r: Result<Principal, ApiError>)
        requires
            self.wf(),
        ensures
            permission_outcome(*self, caller@, group@, roles_result_view(group_roles), default_roles@,
                PermissionActionType::Delete, PermissionType::Invite, r),
    {
        self.check_permission(caller, group, group_roles, default_roles, PermissionActionType::Delete, PermissionType::Invite)
    }
}

} // verus!
