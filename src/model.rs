//! Members, their joins and invites, and the records handed to readers.
use vstd::prelude::*;
use crate::keyed::{as_map, unique_keys, lemma_as_map_at};
use crate::principal::Principal;

verus! {

/// Who asked for an invite: the group's owner, or the user who wants to join.
#[derive(Debug, Clone, Copy, PartialEq, Eq, Structural)]
pub enum InviteType {
    OwnerRequest,
    UserRequest,
}

impl Default for InviteType {
    fn default() -> (r: InviteType)
        ensures
            r == InviteType::UserRequest,
    {
        InviteType::UserRequest
    }
}

/// A pending offer of membership in one group.
#[derive(Debug, Clone, Copy, PartialEq, Eq, Structural)]
pub struct Invite {
    pub invite_type: InviteType,
    pub updated_at: u64,
    pub created_at: u64,
}

impl View for Invite {
    type V = Invite;

    open spec fn view(&self) -> Invite {
        *self
    }
}

impl Default for Invite {
    fn default() -> (r: Invite)
        ensures
            r == (Invite { invite_type: InviteType::UserRequest, updated_at: 0, created_at: 0 }),
    {
        Invite { invite_type: InviteType::UserRequest, updated_at: 0, created_at: 0 }
    }
}

/// Active membership in one group, with the roles held there.
#[derive(Debug, Clone)]
pub struct Join {
    pub roles: Vec<String>,
    pub updated_at: u64,
    pub created_at: u64,
}

/// The roles as character sequences.
pub open spec fn roles_view(roles: Seq<String>) -> Seq<Seq<char>> {
    roles.map_values(|r: String| r@)
}

impl View for Join {
    /// (roles, updated_at, created_at)
    type V = (Seq<Seq<char>>, u64, u64);

    open spec fn view(&self) -> (Seq<Seq<char>>, u64, u64) {
        (roles_view(self.roles@), self.updated_at, self.created_at)
    }
}

impl Join {
    pub fn duplicate(&self) -> (r: Join)
        ensures
            r@ == self@,
            r.roles@ == self.roles@,
    {
        Join { roles: self.roles.clone(), updated_at: self.updated_at, created_at: self.created_at }
    }
}

/// One identity's membership record.
#[derive(Debug, Clone)]
pub struct Member {
    pub principal: Principal,
    pub profile_identifier: Principal,
    pub joined: Vec<(Principal, Join)>,
    pub invites: Vec<(Principal, Invite)>,
}

impl Default for Member {
    /// An anonymous record with no joins and no invites.
    fn default() -> (r: Member)
        ensures
            r.wf(),
            r.principal@ == seq![4u8],
            r.profile_identifier@ == seq![4u8],
            r.joined@.len() == 0,
            r.invites@.len() == 0,
    {
        Member {
            principal: Principal::anonymous(),
            profile_identifier: Principal::anonymous(),
            joined: Vec::new(),
            invites: Vec::new(),
        }
    }
}

impl Member {
    /// Each group occurs at most once among the joins and once among the invites.
    pub open spec fn wf(&self) -> bool {
        &&& unique_keys(self.joined@)
        &&& unique_keys(self.invites@)
    }

    /// The joins, by group.
    pub open spec fn joined_map(&self) -> Map<Seq<u8>, (Seq<Seq<char>>, u64, u64)> {
        as_map(self.joined@)
    }

    /// The invites, by group.
    pub open spec fn invites_map(&self) -> Map<Seq<u8>, Invite> {
        as_map(self.invites@)
    }

    /// No group is both joined and invited to.
    pub open spec fn disjoint(&self) -> bool {
        forall|g: Seq<u8>| !(#[trigger] self.joined_map().contains_key(g) && self.invites_map().contains_key(g))
    }

    /// The roles held in group `g`; none where the member has not joined it.
    pub open spec fn roles_in(&self, g: Seq<u8>) -> Seq<Seq<char>> {
        if self.joined_map().contains_key(g) {
            self.joined_map()[g].0
        } else {
            Seq::empty()
        }
    }

    /// Two records that hold the same principals, joins and invites.
    pub open spec fn same_as(&self, o: &Member) -> bool {
        &&& self.principal@ == o.principal@
        &&& self.profile_identifier@ == o.profile_identifier@
        &&& self.joined_map() == o.joined_map()
        &&& self.invites_map() == o.invites_map()
    }

    /// The position of the join for group `g`, if any.
    pub fn find_join(&self, g: &Principal) -> (r: Option<usize>)
        requires
            self.wf(),
        ensures
            r is None <==> !self.joined_map().contains_key(g@),
            r is None ==> self.roles_in(g@) == Seq::<Seq<char>>::empty(),
            r matches Some(k) ==> {
                &&& k < self.joined@.len()
                &&& self.joined@[k as int].0@ == g@
                &&& self.joined_map()[g@] == self.joined@[k as int].1@
                &&& self.roles_in(g@) == roles_view(self.joined@[k as int].1.roles@)
            },
    {
        let r = crate::keyed::find(&self.joined, g);
        proof {
            if let Some(k) = r {
                lemma_as_map_at(self.joined@, k as int);
            }
        }
        r
    }

    /// The position of the invite for group `g`, if any.
    pub fn find_invite(&self, g: &Principal) -> (r: Option<usize>)
        requires
            self.wf(),
        ensures
            r is None <==> !self.invites_map().contains_key(g@),
            r matches Some(k) ==> {
                &&& k < self.invites@.len()
                &&& self.invites@[k as int].0@ == g@
                &&& self.invites_map()[g@] == self.invites@[k as int].1
            },
    {
        let r = crate::keyed::find(&self.invites, g);
        proof {
            if let Some(k) = r {
                lemma_as_map_at(self.invites@, k as int);
            }
        }
        r
    }

    pub fn duplicate(&self) -> (r: Member)
        requires
            self.wf(),
        ensures
            r.wf(),
            r.same_as(self),
    {
        let mut joined: Vec<(Principal, Join)> = Vec::new();
        let mut i: usize = 0;
        while i < self.joined.len()
            invariant
                i <= self.joined@.len(),
                joined@.len() == i,
                forall|j: int| 0 <= j < i ==> (#[trigger] joined@[j]).0@ == self.joined@[j].0@ && joined@[j].1@ == self.joined@[j].1@,
            decreases self.joined@.len() - i,
        {
            let (g, jn) = &self.joined[i];
            joined.push((g.duplicate(), jn.duplicate()));
            i = i + 1;
        }
        let mut invites: Vec<(Principal, Invite)> = Vec::new();
        let mut i: usize = 0;
        while i < self.invites.len()
            invariant
                i <= self.invites@.len(),
                invites@.len() == i,
                forall|j: int| 0 <= j < i ==> (#[trigger] invites@[j]).0@ == self.invites@[j].0@ && invites@[j].1@ == self.invites@[j].1@,
            decreases self.invites@.len() - i,
        {
            let (g, inv) = &self.invites[i];
            invites.push((g.duplicate(), *inv));
            i = i + 1;
        }
        proof {
            lemma_same_pairs(self.joined@, joined@);
            lemma_same_pairs(self.invites@, invites@);
        }
        Member {
            principal: self.principal.duplicate(),
            profile_identifier: self.profile_identifier.duplicate(),
            joined,
            invites,
        }
    }
}

/// Pairs whose keys and values look alike give the same map.
pub proof fn lemma_same_pairs<V: View>(s: Seq<(Principal, V)>, t: Seq<(Principal, V)>)
    requires
        unique_keys(s),
        s.len() == t.len(),
        forall|j: int| 0 <= j < s.len() ==> (#[trigger] t[j]).0@ == s[j].0@ && t[j].1@ == s[j].1@,
    ensures
        unique_keys(t),
        as_map(t) == as_map(s),
{
    assert forall|a: int, b: int| 0 <= a < t.len() && 0 <= b < t.len() && a != b implies #[trigger] t[a].0@
        != #[trigger] t[b].0@ by {
        assert(s[a].0@ != s[b].0@);
    }
    assert forall|k: Seq<u8>| #[trigger] as_map(t).contains_key(k) == as_map(s).contains_key(k) by {
        if as_map(t).contains_key(k) {
            let j = crate::keyed::index_of(t, k);
            assert(s[j].0@ == k);
        }
        if as_map(s).contains_key(k) {
            let j = crate::keyed::index_of(s, k);
            assert(t[j].0@ == k);
        }
    }
    assert forall|k: Seq<u8>| #[trigger] as_map(t).contains_key(k) implies as_map(t)[k] == as_map(s)[k] by {
        let j = crate::keyed::index_of(t, k);
        lemma_as_map_at(t, j);
        lemma_as_map_at(s, j);
    }
    assert(as_map(t) =~= as_map(s));
}

/// A member of a group, as handed to readers.
#[derive(Debug, Clone)]
pub struct JoinedMemberResponse {
    pub group_identifier: Principal,
    pub member_identifier: Principal,
    pub principal: Principal,
    pub roles: Vec<String>,
}

/// A pending invite to a group, as handed to readers.
#[derive(Debug, Clone)]
pub struct InviteMemberResponse {
    pub group_identifier: Principal,
    pub member_identifier: Principal,
    pub principal: Principal,
    pub invite: Invite,
}

/// Why a request was refused.
#[derive(Debug, Clone, Copy, PartialEq, Eq, Structural)]
pub enum ErrorCode {
    Unauthorized,
    AlreadyJoined,
    PendingInvite,
    Unsupported,
    NotOwningNeuron,
    NotOwningNft,
    InvalidType,
    AlreadyMember,
    MemberNotFound,
    NotJoined,
    NoInviteFound,
    CantSetOwner,
    NoPermission,
    PrincipalMismatch,
    EntryNotFound,
}

/// The errors of the store and of the membership operations.
#[derive(Debug, Clone, PartialEq, Eq)]
pub enum ApiError {
    NotFound(ErrorCode),
    BadRequest(ErrorCode),
    Unauthorized(ErrorCode),
    /// The shard holds as many members as it may.
    CanisterAtCapacity,
    /// Another shard or an outside service failed; its message.
    UpstreamCallFailed(String),
}

} // verus!
