//! One shard's member store and the membership operations on it.
use vstd::prelude::*;
use crate::keyed::{self, has_key, unique_keys, lemma_as_map_empty};
use crate::gate::Privacy;
use crate::membership::{
    accept_effect, add_invite_or_join_group_to_member, added_new, is_new_member, join_group_effect, new_invited_member,
    new_joined_member, updated,
};
use crate::roles::{
    contains_role, filter_role, fresh_join, lemma_filter_step, lemma_without_absent, member_role, member_role_name,
    owner_role, owner_role_name, set_roles_effect, touched, touched_at, distinct_roles_of, without_role,
};
use crate::model::{ApiError, ErrorCode, Invite, InviteMemberResponse, InviteType, Join, JoinedMemberResponse, Member, roles_view};
use crate::principal::{self, Principal, encode_spec, decode_spec, decodable, lemma_identifier_round_trip};

verus! {

/// The kind tag of member identifiers: the bytes of "mbr".
pub open spec fn member_kind() -> Seq<u8> {
    seq![109u8, 98u8, 114u8]
}

/// Identifiers carry the low 32 bits of a sequence number: no shard holds more.
pub const MAX_SHARD_CAPACITY: usize = 0xFFFF_FFFF;

/// The store of one shard: its members, each under the identifier it was given.
pub struct Store {
    /// (identifier, member), in the order in which they were added.
    pub entries: Vec<(Principal, Member)>,
    /// The routing address of this shard.
    pub shard: Principal,
    /// How many members this shard may hold.
    pub capacity: usize,
}

/// The `i`-th entry at `i` is the first with principal `p`.
pub open spec fn is_first_of(entries: Seq<(Principal, Member)>, p: Seq<u8>, i: int) -> bool {
    &&& 0 <= i < entries.len()
    &&& entries[i].1.principal@ == p
    &&& forall|j: int| 0 <= j < i ==> (#[trigger] entries[j]).1.principal@ != p
}

pub open spec fn has_principal(entries: Seq<(Principal, Member)>, p: Seq<u8>) -> bool {
    exists|i: int| 0 <= i < entries.len() && (#[trigger] entries[i]).1.principal@ == p
}

/// Position of the first member whose principal is `p`.
pub open spec fn first_of(entries: Seq<(Principal, Member)>, p: Seq<u8>) -> int {
    choose|i: int| is_first_of(entries, p, i)
}

/// Entries other than the `i`-th, and every identifier, stay as they were.
pub open spec fn only_entry_changed(o: Seq<(Principal, Member)>, n: Seq<(Principal, Member)>, i: int) -> bool {
    &&& n.len() == o.len()
    &&& 0 <= i < o.len()
    &&& n[i].0@ == o[i].0@
    &&& forall|j: int| 0 <= j < n.len() && j != i ==> n[j] == o[j]
}

/// The member keeps its principals and invites; its joins become `joined`.
pub open spec fn with_joins(o: Member, n: Member, joined: Map<Seq<u8>, (Seq<Seq<char>>, u64, u64)>) -> bool {
    &&& n.wf()
    &&& n.principal@ == o.principal@
    &&& n.profile_identifier@ == o.profile_identifier@
    &&& n.joined_map() == joined
    &&& n.invites_map() == o.invites_map()
}

/// The member keeps its principals and joins; its invites become `invites`.
pub open spec fn with_invites(o: Member, n: Member, invites: Map<Seq<u8>, Invite>) -> bool {
    &&& n.wf()
    &&& n.principal@ == o.principal@
    &&& n.profile_identifier@ == o.profile_identifier@
    &&& n.joined_map() == o.joined_map()
    &&& n.invites_map() == invites
}

fn member_kind_bytes() -> (r: Vec<u8>)
    ensures
        r@ == member_kind(),
{
    let r = vec![109u8, 98u8, 114u8];
    assert(r@ =~= member_kind());
    r
}

impl Store {
    pub open spec fn wf(&self) -> bool {
        &&& self.shard@.len() <= 18
        &&& self.capacity <= MAX_SHARD_CAPACITY
        &&& self.entries@.len() <= self.capacity
        &&& forall|i: int| 0 <= i < self.entries@.len() ==>
            (#[trigger] self.entries@[i]).0@ == encode_spec(i as u64, self.shard@, member_kind())
        &&& forall|i: int| 0 <= i < self.entries@.len() ==> (#[trigger] self.entries@[i]).1.wf()
        &&& forall|i: int, j: int|
            0 <= i < self.entries@.len() && 0 <= j < self.entries@.len() && i != j ==> (#[trigger] self.entries@[i]).1.principal@
                != (#[trigger] self.entries@[j]).1.principal@
    }

    /// No member of this shard is both joined and invited to one group.
    pub open spec fn all_disjoint(&self) -> bool {
        forall|i: int| 0 <= i < self.entries@.len() ==> (#[trigger] self.entries@[i]).1.disjoint()
    }

    /// An entry has identifier `id`.
    pub open spec fn has_id(&self, id: Seq<u8>) -> bool {
        has_key(self.entries@, id)
    }

    /// The position of the entry with identifier `id`.
    pub open spec fn index_of_id(&self, id: Seq<u8>) -> int {
        keyed::index_of(self.entries@, id)
    }

    /// A member's record has principal `p`.
    pub open spec fn has_member(&self, p: Seq<u8>) -> bool {
        has_principal(self.entries@, p)
    }

    /// The position of the first member whose principal is `p`.
    pub open spec fn member_of(&self, p: Seq<u8>) -> int {
        first_of(self.entries@, p)
    }

    /// An empty store for the shard at `shard` that holds at most `capacity` members.
    pub fn new(shard: Principal, capacity: usize) -> (r: Store)
        requires
            shard@.len() <= 18,
            capacity <= MAX_SHARD_CAPACITY,
        ensures
            r.wf(),
            r.all_disjoint(),
            r.entries@.len() == 0,
            r.shard@ == shard@,
            r.capacity == capacity,
    {
        Store { entries: Vec::new(), shard, capacity }
    }

    pub fn len(&self) -> (r: usize)
        ensures
            r == self.entries@.len(),
    {
        self.entries.len()
    }

    /// The shard holds as many members as it may.
    pub fn is_at_capacity(&self) -> (r: bool)
        ensures
            r == (self.entries@.len() >= self.capacity),
    {
        self.entries.len() >= self.capacity
    }

    /// Distinct positions carry distinct identifiers.
    pub proof fn lemma_ids_distinct(&self)
        requires
            self.wf(),
        ensures
            unique_keys(self.entries@),
    {
        assert forall|a: int, b: int|
            0 <= a < self.entries@.len() && 0 <= b < self.entries@.len() && a != b implies
            #[trigger] self.entries@[a].0@ != #[trigger] self.entries@[b].0@ by {
            lemma_identifier_round_trip(a as u64, self.shard@, member_kind());
            lemma_identifier_round_trip(b as u64, self.shard@, member_kind());
        }
    }

    proof fn lemma_first_unique(entries: Seq<(Principal, Member)>, p: Seq<u8>, i: int)
        requires
            is_first_of(entries, p, i),
        ensures
            has_principal(entries, p),
            first_of(entries, p) == i,
    {
        let j = first_of(entries, p);
        assert(is_first_of(entries, p, j));
        if j < i {
            assert(entries[j].1.principal@ != p);
        }
        if i < j {
            assert(entries[i].1.principal@ != p);
        }
    }

    /// The position of the first member whose principal is `p`, if any.
    pub fn find_member(&self, p: &Principal) -> (r: Option<usize>)
        ensures
            r is None <==> !self.has_member(p@),
            r matches Some(i) ==> i == self.member_of(p@) && is_first_of(self.entries@, p@, i as int),
    {
        let mut i: usize = 0;
        while i < self.entries.len()
            invariant
                i <= self.entries@.len(),
                forall|j: int| 0 <= j < i ==> (#[trigger] self.entries@[j]).1.principal@ != p@,
            decreases self.entries@.len() - i,
        {
            if self.entries[i].1.principal.same(p) {
                proof {
                    Self::lemma_first_unique(self.entries@, p@, i as int);
                }
                return Some(i);
            }
            i = i + 1;
        }
        None
    }

    /// The position of the entry with identifier `id`, if any.
    pub fn find_id(&self, id: &Principal) -> (r: Option<usize>)
        requires
            self.wf(),
        ensures
            r is None <==> !self.has_id(id@),
            r matches Some(i) ==> i == self.index_of_id(id@) && self.entries@[i as int].0@ == id@,
    {
        let r = keyed::find(&self.entries, id);
        proof {
            self.lemma_ids_distinct();
            if let Some(i) = r {
                let j = self.index_of_id(id@);
                assert(self.entries@[j].0@ == id@);
            }
        }
        r
    }

    /// Replaces the member at position `i`, keeping its identifier.
    pub fn set_member(&mut self, i: usize, member: Member)
        requires
            old(self).wf(),
            i < old(self).entries@.len(),
            member.wf(),
            member.principal@ == old(self).entries@[i as int].1.principal@,
        ensures
            final(self).wf(),
            final(self).shard == old(self).shard,
            final(self).capacity == old(self).capacity,
            only_entry_changed(old(self).entries@, final(self).entries@, i as int),
            final(self).entries@[i as int].1 == member,
            old(self).all_disjoint() && member.disjoint() ==> final(self).all_disjoint(),
    {
        let id = self.entries[i].0.duplicate();
        self.entries.set(i, (id, member));
        proof {
            assert forall|j: int| 0 <= j < self.entries@.len() implies (#[trigger] self.entries@[j]).0@
                == encode_spec(j as u64, self.shard@, member_kind()) && self.entries@[j].1.wf() by {
                if j != i {
                    assert(self.entries@[j] == old(self).entries@[j]);
                }
            }
            assert forall|j: int| 0 <= j < self.entries@.len() && old(self).all_disjoint() && member.disjoint() implies (#[trigger] self.entries@[j]).1.disjoint() by {
                if j != i {
                    assert(self.entries@[j] == old(self).entries@[j]);
                }
            }
            assert forall|a: int, b: int|
                0 <= a < self.entries@.len() && 0 <= b < self.entries@.len() && a != b implies (#[trigger] self.entries@[a]).1.principal@
                    != (#[trigger] self.entries@[b]).1.principal@ by {
                assert(self.entries@[a].1.principal@ == old(self).entries@[a].1.principal@);
                assert(self.entries@[b].1.principal@ == old(self).entries@[b].1.principal@);
            }
        }
    }

    /// The caller leaves a group: its join there, if any, is removed.
    pub fn leave_group(&mut self, caller: &Principal, group: &Principal) -> (r: Result<(), ApiError>)
        requires
            old(self).wf(),
        ensures
            final(self).wf(),
            final(self).shard == old(self).shard,
            final(self).capacity == old(self).capacity,
            !old(self).has_member(caller@) ==> r == Err::<(), ApiError>(ApiError::NotFound(ErrorCode::MemberNotFound))
                && final(self).entries@ == old(self).entries@,
            old(self).has_member(caller@) ==> {
                let i = old(self).member_of(caller@);
                let o = old(self).entries@[i].1;
                &&& r is Ok
                &&& only_entry_changed(old(self).entries@, final(self).entries@, i)
                &&& with_joins(o, final(self).entries@[i].1, o.joined_map().remove(group@))
            },
            old(self).all_disjoint() ==> final(self).all_disjoint(),
    {
        match self.find_member(caller) {
            None => Err(ApiError::NotFound(ErrorCode::MemberNotFound)),
            Some(i) => {
                let mut m = self.entries[i].1.duplicate();
                keyed::remove_key(&mut m.joined, group);
                self.set_member(i, m);
                Ok(())
            },
        }
    }

    /// The caller withdraws or declines its invite to a group, if any.
    pub fn remove_invite(&mut self, caller: &Principal, group: &Principal) -> (r: Result<(), ApiError>)
        requires
            old(self).wf(),
        ensures
            final(self).wf(),
            final(self).shard == old(self).shard,
            final(self).capacity == old(self).capacity,
            !old(self).has_member(caller@) ==> r == Err::<(), ApiError>(ApiError::NotFound(ErrorCode::MemberNotFound))
                && final(self).entries@ == old(self).entries@,
            old(self).has_member(caller@) ==> {
                let i = old(self).member_of(caller@);
                let o = old(self).entries@[i].1;
                &&& r is Ok
                &&& only_entry_changed(old(self).entries@, final(self).entries@, i)
                &&& with_invites(o, final(self).entries@[i].1, o.invites_map().remove(group@))
            },
            old(self).all_disjoint() ==> final(self).all_disjoint(),
    {
        match self.find_member(caller) {
            None => Err(ApiError::NotFound(ErrorCode::MemberNotFound)),
            Some(i) => {
                let mut m = self.entries[i].1.duplicate();
                keyed::remove_key(&mut m.invites, group);
                self.set_member(i, m);
                Ok(())
            },
        }
    }

    /// Removes the invite of the member with principal `member_principal` to a group.
    pub fn remove_invite_from_member(&mut self, member_principal: &Principal, group: &Principal) -> (r: Result<(), ApiError>)
        requires
            old(self).wf(),
        ensures
            final(self).wf(),
            final(self).shard == old(self).shard,
            final(self).capacity == old(self).capacity,
            !old(self).has_member(member_principal@) ==> r == Err::<(), ApiError>(ApiError::NotFound(ErrorCode::MemberNotFound))
                && final(self).entries@ == old(self).entries@,
            old(self).has_member(member_principal@) ==> {
                let i = old(self).member_of(member_principal@);
                let o = old(self).entries@[i].1;
                &&& r is Ok
                &&& only_entry_changed(old(self).entries@, final(self).entries@, i)
                &&& with_invites(o, final(self).entries@[i].1, o.invites_map().remove(group@))
            },
            old(self).all_disjoint() ==> final(self).all_disjoint(),
    {
        self.remove_invite(member_principal, group)
    }

    /// The caller holds the owner role in `group`.
    pub open spec fn is_owner_of(&self, caller: Seq<u8>, group: Seq<u8>) -> bool {
        &&& self.has_member(caller)
        &&& self.entries@[self.member_of(caller)].1.roles_in(group).contains(owner_role())
    }

    /// An owner of a group removes another member's join there.
    pub fn remove_join_from_member(&mut self, caller: &Principal, member_principal: &Principal, group: &Principal) -> (r: Result<(), ApiError>)
        requires
            old(self).wf(),
        ensures
            final(self).wf(),
            final(self).shard == old(self).shard,
            final(self).capacity == old(self).capacity,
            !old(self).has_member(caller@) ==> r == Err::<(), ApiError>(ApiError::NotFound(ErrorCode::MemberNotFound)),
            old(self).has_member(caller@) && !old(self).is_owner_of(caller@, group@) ==> r == Err::<(), ApiError>(
                ApiError::Unauthorized(ErrorCode::Unauthorized)),
            old(self).is_owner_of(caller@, group@) && !old(self).has_member(member_principal@) ==> r == Err::<(), ApiError>(
                ApiError::NotFound(ErrorCode::MemberNotFound)),
            r is Err ==> final(self).entries@ == old(self).entries@,
            old(self).is_owner_of(caller@, group@) && old(self).has_member(member_principal@) ==> {
                let i = old(self).member_of(member_principal@);
                let o = old(self).entries@[i].1;
                &&& r is Ok
                &&& only_entry_changed(old(self).entries@, final(self).entries@, i)
                &&& with_joins(o, final(self).entries@[i].1, o.joined_map().remove(group@))
            },
            old(self).all_disjoint() ==> final(self).all_disjoint(),
    {
        match self.find_member(caller) {
            None => Err(ApiError::NotFound(ErrorCode::MemberNotFound)),
            Some(c) => {
                let owner = owner_role_name();
                let is_owner = match self.entries[c].1.find_join(group) {
                    None => false,
                    Some(k) => contains_role(&self.entries[c].1.joined[k].1.roles, &owner),
                };
                if !is_owner {
                    return Err(ApiError::Unauthorized(ErrorCode::Unauthorized));
                }
                self.leave_group(member_principal, group)
            },
        }
    }

    /// Gives the member with identifier `member_identifier` one more role in a
    /// group it has joined; a role it already holds is refused.
    pub fn assign_role(&mut self, role: String, member_identifier: &Principal, group: &Principal, now: u64) -> (r: Result<(), ()>)
        requires
            old(self).wf(),
        ensures
            final(self).wf(),
            final(self).shard == old(self).shard,
            final(self).capacity == old(self).capacity,
            !old(self).has_id(member_identifier@) ==> r is Err && final(self).entries@ == old(self).entries@,
            old(self).has_id(member_identifier@) ==> {
                let i = old(self).index_of_id(member_identifier@);
                let o = old(self).entries@[i].1;
                let g = group@;
                &&& !o.joined_map().contains_key(g) ==> r is Ok && final(self).entries@ == old(self).entries@
                &&& o.joined_map().contains_key(g) && o.roles_in(g).contains(role@) ==> r is Err
                    && final(self).entries@ == old(self).entries@
                &&& o.joined_map().contains_key(g) && !o.roles_in(g).contains(role@) ==> {
                    &&& r is Ok
                    &&& only_entry_changed(old(self).entries@, final(self).entries@, i)
                    &&& with_joins(o, final(self).entries@[i].1, o.joined_map().insert(g,
                        (o.roles_in(g).push(role@), touched(now, o.joined_map()[g].2), o.joined_map()[g].2)))
                }
            },
            old(self).all_disjoint() ==> final(self).all_disjoint(),
    {
        let i = match self.find_id(member_identifier) {
            None => return Err(()),
            Some(i) => i,
        };
        let k = match self.entries[i].1.find_join(group) {
            None => return Ok(()),
            Some(k) => k,
        };
        if contains_role(&self.entries[i].1.joined[k].1.roles, &role) {
            return Err(());
        }
        let mut m = self.entries[i].1.duplicate();
        let mut join = self.entries[i].1.joined[k].1.duplicate();
        let ghost before = join.roles@;
        join.roles.push(role);
        join.updated_at = touched_at(now, join.created_at);
        assert(roles_view(join.roles@) =~= roles_view(before).push(role@));
        keyed::put(&mut m.joined, group.duplicate(), join);
        self.set_member(i, m);
        Ok(())
    }

    /// Replaces the roles of the member with identifier `member_identifier` in a
    /// group it has joined; a role named twice is kept once, at its first place.
    pub fn set_roles(&mut self, roles: Vec<String>, member_identifier: &Principal, group: &Principal, now: u64) -> (r: Result<(), ()>)
        requires
            old(self).wf(),
        ensures
            final(self).wf(),
            final(self).shard == old(self).shard,
            final(self).capacity == old(self).capacity,
            set_roles_effect(*old(self), *final(self), roles_view(roles@), member_identifier@, group@, now, r),
            old(self).all_disjoint() ==> final(self).all_disjoint(),
    {
        let i = match self.find_id(member_identifier) {
            None => return Err(()),
            Some(i) => i,
        };
        let k = match self.entries[i].1.find_join(group) {
            None => return Ok(()),
            Some(k) => k,
        };
        let mut m = self.entries[i].1.duplicate();
        let created_at = self.entries[i].1.joined[k].1.created_at;
        let join = Join { roles: distinct_roles_of(&roles), updated_at: touched_at(now, created_at), created_at };
        keyed::put(&mut m.joined, group.duplicate(), join);
        self.set_member(i, m);
        Ok(())
    }

    /// Removes a role from the member with identifier `member_identifier` in a
    /// group it has joined; a role it does not hold leaves its roles as they are.
    pub fn remove_role(&mut self, role: String, member_identifier: &Principal, group: &Principal, now: u64) -> (r: Result<(), ()>)
        requires
            old(self).wf(),
        ensures
            final(self).wf(),
            final(self).shard == old(self).shard,
            final(self).capacity == old(self).capacity,
            !old(self).has_id(member_identifier@) ==> r is Err && final(self).entries@ == old(self).entries@,
            old(self).has_id(member_identifier@) ==> {
                let i = old(self).index_of_id(member_identifier@);
                let o = old(self).entries@[i].1;
                let g = group@;
                &&& !o.joined_map().contains_key(g) ==> r is Err && final(self).entries@ == old(self).entries@
                &&& o.joined_map().contains_key(g) ==> {
                    &&& r is Ok
                    &&& only_entry_changed(old(self).entries@, final(self).entries@, i)
                    &&& with_joins(o, final(self).entries@[i].1, o.joined_map().insert(g,
                        (without_role(o.roles_in(g), role@), touched(now, o.joined_map()[g].2), o.joined_map()[g].2)))
                    &&& !o.roles_in(g).contains(role@) ==> final(self).entries@[i].1.roles_in(g) == o.roles_in(g)
                }
            },
            old(self).all_disjoint() ==> final(self).all_disjoint(),
    {
        let i = match self.find_id(member_identifier) {
            None => return Err(()),
            Some(i) => i,
        };
        let k = match self.entries[i].1.find_join(group) {
            None => return Err(()),
            Some(k) => k,
        };
        let mut m = self.entries[i].1.duplicate();
        let old_join = &self.entries[i].1.joined[k].1;
        let roles = filter_role(&old_join.roles, &role);
        let join = Join { roles, updated_at: touched_at(now, old_join.created_at), created_at: old_join.created_at };
        proof {
            let o = self.entries@[i as int].1;
            if !o.roles_in(group@).contains(role@) {
                lemma_without_absent(o.roles_in(group@), role@);
            }
        }
        keyed::put(&mut m.joined, group.duplicate(), join);
        self.set_member(i, m);
        Ok(())
    }

    /// The principal of the member with identifier `member_identifier` and its
    /// roles in a group (none where it has not joined it).
    pub fn get_member_roles(&self, member_identifier: &Principal, group: &Principal) -> (r: Result<(Principal, Vec<String>), String>)
        requires
            self.wf(),
        ensures
            r is Err <==> !self.has_id(member_identifier@),
            r matches Ok((p, roles)) ==> {
                let o = self.entries@[self.index_of_id(member_identifier@)].1;
                p@ == o.principal@ && roles_view(roles@) == o.roles_in(group@)
            },
    {
        match self.find_id(member_identifier) {
            None => Err(String::from_str("No member found")),
            Some(i) => Ok(Self::roles_of(&self.entries[i].1, group)),
        }
    }

    /// The roles of the first member with principal `principal` in a group (none
    /// where it has not joined it), with its principal.
    pub fn get_member_roles_by_principal(&self, principal: &Principal, group: &Principal) -> (r: Result<(Principal, Vec<String>), String>)
        requires
            self.wf(),
        ensures
            r is Err <==> !self.has_member(principal@),
            r matches Ok((p, roles)) ==> {
                let o = self.entries@[self.member_of(principal@)].1;
                p@ == principal@ && p@ == o.principal@ && roles_view(roles@) == o.roles_in(group@)
            },
    {
        match self.find_member(principal) {
            None => Err(String::from_str("No member found")),
            Some(i) => Ok(Self::roles_of(&self.entries[i].1, group)),
        }
    }

    fn roles_of(m: &Member, group: &Principal) -> (r: (Principal, Vec<String>))
        requires
            m.wf(),
        ensures
            r.0@ == m.principal@,
            roles_view(r.1@) == m.roles_in(group@),
    {
        match m.find_join(group) {
            None => {
                let v: Vec<String> = Vec::new();
                assert(roles_view(v@) =~= Seq::<Seq<char>>::empty());
                (m.principal.duplicate(), v)
            },
            Some(k) => (m.principal.duplicate(), m.joined[k].1.roles.clone()),
        }
    }

    /// The caller joins a group, or asks to, as its privacy allows. `owner_and_privacy`
    /// is what the group's shard answered; `gate_results` whether each gate entry
    /// that was checked passed. A new record is added for a caller without one.
    pub fn join_group(
        &mut self,
        caller: &Principal,
        group: &Principal,
        owner_and_privacy: Result<(Principal, Privacy), ApiError>,
        gate_results: &Vec<bool>,
        now: u64,
    ) -> (r: Result<(Principal, Member), ApiError>)
        requires
            old(self).wf(),
        ensures
            final(self).wf(),
            final(self).shard == old(self).shard,
            final(self).capacity == old(self).capacity,
            r is Err ==> final(self).entries@ == old(self).entries@,
            owner_and_privacy matches Err(e) ==> r == Err::<(Principal, Member), ApiError>(e),
            owner_and_privacy matches Ok((_, privacy)) ==> join_group_effect(*old(self), *final(self), caller@, group@, privacy, gate_results@, now, r),
            old(self).all_disjoint() ==> final(self).all_disjoint(),
    {
        let privacy = match owner_and_privacy {
            Err(e) => return Err(e),
            Ok((_, privacy)) => privacy,
        };
        match self.find_member(caller) {
            Some(i) => {
                if self.entries[i].1.find_join(group).is_some() {
                    return Err(ApiError::BadRequest(ErrorCode::AlreadyJoined));
                }
                if self.entries[i].1.find_invite(group).is_some() {
                    return Err(ApiError::BadRequest(ErrorCode::PendingInvite));
                }
                let m = self.entries[i].1.duplicate();
                let n = match add_invite_or_join_group_to_member(caller, group, Some(m), &privacy, gate_results, now) {
                    Err(e) => return Err(e),
                    Ok(n) => n,
                };
                let out = n.duplicate();
                let id = self.entries[i].0.duplicate();
                self.set_member(i, n);
                Ok((id, out))
            },
            None => {
                let n = match add_invite_or_join_group_to_member(caller, group, None, &privacy, gate_results, now) {
                    Err(e) => return Err(e),
                    Ok(n) => n,
                };
                self.add_entry(n)
            },
        }
    }

    /// A group's owner invites the user with principal `member_principal`; a new
    /// record is added for a user without one. A pending invite is replaced.
    pub fn invite_to_group(&mut self, group: &Principal, member_principal: &Principal, now: u64) -> (r: Result<(Principal, Member), ApiError>)
        requires
            old(self).wf(),
        ensures
            final(self).wf(),
            final(self).shard == old(self).shard,
            final(self).capacity == old(self).capacity,
            r is Err ==> final(self).entries@ == old(self).entries@,
            ({
                let inv = Invite { invite_type: InviteType::OwnerRequest, updated_at: now, created_at: now };
                &&& !old(self).has_member(member_principal@) ==> added_new(*old(self), *final(self), r, |n: Member|
                    is_new_member(n, member_principal@, Map::empty(), map![group@ => inv]))
                &&& old(self).has_member(member_principal@) ==> {
                    let i = old(self).member_of(member_principal@);
                    let o = old(self).entries@[i].1;
                    &&& o.joined_map().contains_key(group@) ==> r == Err::<(Principal, Member), ApiError>(ApiError::BadRequest(ErrorCode::AlreadyJoined))
                    &&& !o.joined_map().contains_key(group@) ==> updated(*old(self), *final(self), i, r)
                        && with_invites(o, final(self).entries@[i].1, o.invites_map().insert(group@, inv))
                }
            }),
            old(self).all_disjoint() ==> final(self).all_disjoint(),
    {
        let invite = Invite { invite_type: InviteType::OwnerRequest, updated_at: now, created_at: now };
        match self.find_member(member_principal) {
            None => {
                let n = new_invited_member(member_principal, group, invite);
                self.add_entry(n)
            },
            Some(i) => {
                if self.entries[i].1.find_join(group).is_some() {
                    return Err(ApiError::BadRequest(ErrorCode::AlreadyJoined));
                }
                let mut m = self.entries[i].1.duplicate();
                keyed::put(&mut m.invites, group.duplicate(), invite);
                let out = m.duplicate();
                let id = self.entries[i].0.duplicate();
                self.set_member(i, m);
                Ok((id, out))
            },
        }
    }

    /// Turns the invite of the member with principal `member_principal` to a
    /// group into a join with the member role, where the invite is of type `expected`.
    fn accept_invite(&mut self, member_principal: &Principal, group: &Principal, expected: InviteType, now: u64) -> (r: Result<(Principal, Member), ApiError>)
        requires
            old(self).wf(),
        ensures
            final(self).wf(),
            final(self).shard == old(self).shard,
            final(self).capacity == old(self).capacity,
            accept_effect(*old(self), *final(self), member_principal@, group@, expected, now, r),
            old(self).all_disjoint() ==> final(self).all_disjoint(),
    {
        let i = match self.find_member(member_principal) {
            None => return Err(ApiError::NotFound(ErrorCode::MemberNotFound)),
            Some(i) => i,
        };
        let k = match self.entries[i].1.find_invite(group) {
            None => return Err(ApiError::NotFound(ErrorCode::NoInviteFound)),
            Some(k) => k,
        };
        if self.entries[i].1.invites[k].1.invite_type != expected {
            return Err(ApiError::BadRequest(ErrorCode::InvalidType));
        }
        let mut m = self.entries[i].1.duplicate();
        keyed::remove_key(&mut m.invites, group);
        let roles = vec![member_role_name()];
        assert(roles_view(roles@) =~= seq![member_role()]);
        keyed::put(&mut m.joined, group.duplicate(), Join { roles, updated_at: now, created_at: now });
        let out = m.duplicate();
        let id = self.entries[i].0.duplicate();
        self.set_member(i, m);
        Ok((id, out))
    }

    /// The group's owner accepts a user's request to join.
    pub fn accept_user_request_group_invite(&mut self, member_principal: &Principal, group: &Principal, now: u64) -> (r: Result<(Principal, Member), ApiError>)
        requires
            old(self).wf(),
        ensures
            final(self).wf(),
            final(self).shard == old(self).shard,
            final(self).capacity == old(self).capacity,
            accept_effect(*old(self), *final(self), member_principal@, group@, InviteType::UserRequest, now, r),
            old(self).all_disjoint() ==> final(self).all_disjoint(),
    {
        self.accept_invite(member_principal, group, InviteType::UserRequest, now)
    }

    /// The caller accepts its owner's invite to a group.
    pub fn accept_owner_request_group_invite(&mut self, caller: &Principal, group: &Principal, now: u64) -> (r: Result<(Principal, Member), ApiError>)
        requires
            old(self).wf(),
        ensures
            final(self).wf(),
            final(self).shard == old(self).shard,
            final(self).capacity == old(self).capacity,
            accept_effect(*old(self), *final(self), caller@, group@, InviteType::OwnerRequest, now, r),
            old(self).all_disjoint() ==> final(self).all_disjoint(),
    {
        self.accept_invite(caller, group, InviteType::OwnerRequest, now)
    }

    /// Records the owner of a newly created group as its member with the owner
    /// role; a pending invite of the owner to that group is dropped, so that no
    /// group is both joined and invited to. `owner_and_privacy` is what the
    /// group's shard answered.
    pub fn add_owner(&mut self, owner_principal: &Principal, group: &Principal, owner_and_privacy: Result<(Principal, Privacy), ApiError>, now: u64) -> (r: Result<Principal, ApiError>)
        requires
            old(self).wf(),
        ensures
            final(self).wf(),
            final(self).shard == old(self).shard,
            final(self).capacity == old(self).capacity,
            r is Err ==> final(self).entries@ == old(self).entries@,
            owner_and_privacy matches Err(e) ==> r == Err::<Principal, ApiError>(e),
            owner_and_privacy matches Ok((owner, _)) && owner@ != owner_principal@ ==> r == Err::<Principal, ApiError>(
                ApiError::BadRequest(ErrorCode::CantSetOwner)),
            owner_and_privacy matches Ok((owner, _)) && owner@ == owner_principal@ ==> {
                let j = fresh_join(owner_role(), now);
                &&& !old(self).has_member(owner_principal@) ==> {
                    &&& old(self).entries@.len() >= old(self).capacity ==> r == Err::<Principal, ApiError>(ApiError::CanisterAtCapacity)
                    &&& old(self).entries@.len() < old(self).capacity ==> {
                        &&& final(self).entries@ == old(self).entries@.push(final(self).entries@.last())
                        &&& is_new_member(final(self).entries@.last().1, owner_principal@, map![group@ => j], Map::empty())
                        &&& r matches Ok(id) && id@ == final(self).entries@.last().0@
                    }
                }
                &&& old(self).has_member(owner_principal@) ==> {
                    let i = old(self).member_of(owner_principal@);
                    let o = old(self).entries@[i].1;
                    &&& o.joined_map().contains_key(group@) ==> r == Err::<Principal, ApiError>(ApiError::BadRequest(ErrorCode::AlreadyJoined))
                    &&& !o.joined_map().contains_key(group@) ==> {
                        let n = final(self).entries@[i].1;
                        &&& r matches Ok(id) && id@ == old(self).entries@[i].0@
                        &&& only_entry_changed(old(self).entries@, final(self).entries@, i)
                        &&& n.wf()
                        &&& n.principal@ == o.principal@
                        &&& n.profile_identifier@ == o.profile_identifier@
                        &&& n.joined_map() == o.joined_map().insert(group@, j)
                        &&& n.invites_map() == o.invites_map().remove(group@)
                    }
                }
            },
            old(self).all_disjoint() ==> final(self).all_disjoint(),
    {
        let owner = match owner_and_privacy {
            Err(e) => return Err(e),
            Ok((owner, _)) => owner,
        };
        if !owner.same(owner_principal) {
            return Err(ApiError::BadRequest(ErrorCode::CantSetOwner));
        }
        match self.find_member(owner_principal) {
            None => {
                let n = new_joined_member(owner_principal, group, owner_role_name(), now);
                match self.add_entry(n) {
                    Err(e) => Err(e),
                    Ok((id, _)) => Ok(id),
                }
            },
            Some(i) => {
                if self.entries[i].1.find_join(group).is_some() {
                    return Err(ApiError::BadRequest(ErrorCode::AlreadyJoined));
                }
                let mut m = self.entries[i].1.duplicate();
                keyed::remove_key(&mut m.invites, group);
                let roles = vec![owner_role_name()];
                assert(roles_view(roles@) =~= seq![owner_role()]);
                keyed::put(&mut m.joined, group.duplicate(), Join { roles, updated_at: now, created_at: now });
                let id = self.entries[i].0.duplicate();
                self.set_member(i, m);
                Ok(id)
            },
        }
    }

    /// Adds an empty record for the caller, linked to its profile, unless it has
    /// one; the profile identifier must be of kind "pfe".
    pub fn create_empty_member(&mut self, caller: &Principal, profile_identifier: &Principal) -> (r: Result<Principal, ApiError>)
        requires
            old(self).wf(),
        ensures
            final(self).wf(),
            final(self).shard == old(self).shard,
            final(self).capacity == old(self).capacity,
            r is Err ==> final(self).entries@ == old(self).entries@,
            !is_profile_identifier(profile_identifier@) ==> r == Err::<Principal, ApiError>(ApiError::NotFound(ErrorCode::InvalidType)),
            is_profile_identifier(profile_identifier@) && old(self).has_member(caller@) ==> r == Err::<Principal, ApiError>(
                ApiError::BadRequest(ErrorCode::AlreadyMember)),
            is_profile_identifier(profile_identifier@) && !old(self).has_member(caller@) ==> {
                &&& old(self).entries@.len() >= old(self).capacity ==> r == Err::<Principal, ApiError>(ApiError::CanisterAtCapacity)
                &&& old(self).entries@.len() < old(self).capacity ==> {
                    let n = final(self).entries@.last().1;
                    &&& final(self).entries@ == old(self).entries@.push(final(self).entries@.last())
                    &&& n.wf() && n.principal@ == caller@ && n.profile_identifier@ == profile_identifier@
                    &&& n.joined_map() == Map::<Seq<u8>, (Seq<Seq<char>>, u64, u64)>::empty()
                    &&& n.invites_map() == Map::<Seq<u8>, Invite>::empty()
                    &&& r matches Ok(id) && id@ == final(self).entries@.last().0@
                }
            },
            old(self).all_disjoint() ==> final(self).all_disjoint(),
    {
        let is_profile = match principal::decode(profile_identifier) {
            None => false,
            Some((_, _, kind)) => kind.len() == 3 && kind[0] == 112u8 && kind[1] == 102u8 && kind[2] == 101u8,
        };
        proof {
            if is_profile {
                assert(decode_spec(profile_identifier@).2 =~= profile_kind());
            }
        }
        if !is_profile {
            return Err(ApiError::NotFound(ErrorCode::InvalidType));
        }
        if self.find_member(caller).is_some() {
            return Err(ApiError::BadRequest(ErrorCode::AlreadyMember));
        }
        let n = Member {
            principal: caller.duplicate(),
            profile_identifier: profile_identifier.duplicate(),
            joined: Vec::new(),
            invites: Vec::new(),
        };
        proof {
            lemma_as_map_empty(n.joined@);
            lemma_as_map_empty(n.invites@);
        }
        match self.add_entry(n) {
            Err(e) => Err(e),
            Ok((id, _)) => Ok(id),
        }
    }

    /// The caller's own record, with its identifier.
    pub fn get_self(&self, caller: &Principal) -> (r: Result<(Principal, Member), ApiError>)
        requires
            self.wf(),
        ensures
            !self.has_member(caller@) ==> r == Err::<(Principal, Member), ApiError>(ApiError::NotFound(ErrorCode::MemberNotFound)),
            self.has_member(caller@) ==> {
                let i = self.member_of(caller@);
                r matches Ok((id, m)) && id@ == self.entries@[i].0@ && m.same_as(&self.entries@[i].1) && m.wf()
            },
    {
        match self.find_member(caller) {
            None => Err(ApiError::NotFound(ErrorCode::MemberNotFound)),
            Some(i) => Ok((self.entries[i].0.duplicate(), self.entries[i].1.duplicate())),
        }
    }

    /// The caller's membership in a group, as handed to readers.
    pub fn get_group_member_by_user_principal(&self, caller: &Principal, group: &Principal) -> (r: Result<JoinedMemberResponse, ApiError>)
        requires
            self.wf(),
        ensures
            !self.has_member(caller@) ==> r == Err::<JoinedMemberResponse, ApiError>(ApiError::NotFound(ErrorCode::MemberNotFound)),
            self.has_member(caller@) ==> {
                let i = self.member_of(caller@);
                let m = self.entries@[i].1;
                &&& !m.joined_map().contains_key(group@) ==> r == Err::<JoinedMemberResponse, ApiError>(ApiError::NotFound(ErrorCode::NotJoined))
                &&& m.joined_map().contains_key(group@) ==> (r matches Ok(x) && x.group_identifier@ == group@
                    && x.member_identifier@ == self.entries@[i].0@ && x.principal@ == caller@
                    && roles_view(x.roles@) == m.roles_in(group@))
            },
    {
        match self.find_member(caller) {
            None => Err(ApiError::NotFound(ErrorCode::MemberNotFound)),
            Some(i) => match self.entries[i].1.find_join(group) {
                None => Err(ApiError::NotFound(ErrorCode::NotJoined)),
                Some(k) => Ok(JoinedMemberResponse {
                    group_identifier: group.duplicate(),
                    member_identifier: self.entries[i].0.duplicate(),
                    principal: caller.duplicate(),
                    roles: self.entries[i].1.joined[k].1.roles.clone(),
                }),
            },
        }
    }

    /// The members that joined `group`, in the store's order, as handed to readers.
    pub fn get_group_members(&self, group: &Principal) -> (r: Vec<JoinedMemberResponse>)
        requires
            self.wf(),
        ensures
            r@.len() == members_in(self.entries@, group@).len(),
            forall|k: int| 0 <= k < r@.len() ==> is_joined_response(#[trigger] r@[k], members_in(self.entries@, group@)[k], group@),
    {
        let ghost pred = joins_group(group@);
        let mut out: Vec<JoinedMemberResponse> = Vec::new();
        let mut i: usize = 0;
        while i < self.entries.len()
            invariant
                self.wf(),
                i <= self.entries@.len(),
                pred == joins_group(group@),
                out@.len() == self.entries@.subrange(0, i as int).filter(pred).len(),
                forall|k: int| 0 <= k < out@.len() ==> is_joined_response(#[trigger] out@[k], self.entries@.subrange(0, i as int).filter(pred)[k], group@),
            decreases self.entries@.len() - i,
        {
            proof {
                lemma_filter_step(self.entries@, i as int, pred);
                assert(self.entries@.subrange(0, i as int + 1).drop_last() =~= self.entries@.subrange(0, i as int));
            }
            if self.entries[i].1.find_join(group).is_some() {
                let x = Self::map_member_to_joined_member_response(&self.entries[i].0, &self.entries[i].1, group);
                out.push(x);
            }
            i = i + 1;
        }
        assert(self.entries@.subrange(0, self.entries@.len() as int) =~= self.entries@);
        out
    }

    /// The pending invites to `group`, in the store's order, as handed to readers.
    pub fn get_group_invites(&self, group: &Principal) -> (r: Vec<InviteMemberResponse>)
        requires
            self.wf(),
        ensures
            r@.len() == invitees_of(self.entries@, group@).len(),
            forall|k: int| 0 <= k < r@.len() ==> is_invite_response(#[trigger] r@[k], invitees_of(self.entries@, group@)[k], group@),
    {
        let ghost pred = invited_to(group@);
        let mut out: Vec<InviteMemberResponse> = Vec::new();
        let mut i: usize = 0;
        while i < self.entries.len()
            invariant
                self.wf(),
                i <= self.entries@.len(),
                pred == invited_to(group@),
                out@.len() == self.entries@.subrange(0, i as int).filter(pred).len(),
                forall|k: int| 0 <= k < out@.len() ==> is_invite_response(#[trigger] out@[k], self.entries@.subrange(0, i as int).filter(pred)[k], group@),
            decreases self.entries@.len() - i,
        {
            proof {
                lemma_filter_step(self.entries@, i as int, pred);
            }
            if self.entries[i].1.find_invite(group).is_some() {
                let x = Self::map_member_to_invite_member_response(&self.entries[i].0, &self.entries[i].1, group);
                out.push(x);
            }
            i = i + 1;
        }
        assert(self.entries@.subrange(0, self.entries@.len() as int) =~= self.entries@);
        out
    }

    /// How many members joined `group`.
    pub fn member_count_for_group(&self, group: &Principal) -> (r: usize)
        requires
            self.wf(),
        ensures
            r == members_in(self.entries@, group@).len(),
    {
        let ghost pred = joins_group(group@);
        let mut n: usize = 0;
        let mut i: usize = 0;
        while i < self.entries.len()
            invariant
                self.wf(),
                i <= self.entries@.len(),
                pred == joins_group(group@),
                n == self.entries@.subrange(0, i as int).filter(pred).len(),
                n <= i,
            decreases self.entries@.len() - i,
        {
            proof {
                lemma_filter_step(self.entries@, i as int, pred);
            }
            if self.entries[i].1.find_join(group).is_some() {
                n = n + 1;
            }
            i = i + 1;
        }
        assert(self.entries@.subrange(0, self.entries@.len() as int) =~= self.entries@);
        n
    }

    /// How many members hold an invite to `group`.
    pub fn invite_count_for_group(&self, group: &Principal) -> (r: usize)
        requires
            self.wf(),
        ensures
            r == invitees_of(self.entries@, group@).len(),
    {
        let ghost pred = invited_to(group@);
        let mut n: usize = 0;
        let mut i: usize = 0;
        while i < self.entries.len()
            invariant
                self.wf(),
                i <= self.entries@.len(),
                pred == invited_to(group@),
                n == self.entries@.subrange(0, i as int).filter(pred).len(),
                n <= i,
            decreases self.entries@.len() - i,
        {
            proof {
                lemma_filter_step(self.entries@, i as int, pred);
            }
            if self.entries[i].1.find_invite(group).is_some() {
                n = n + 1;
            }
            i = i + 1;
        }
        assert(self.entries@.subrange(0, self.entries@.len() as int) =~= self.entries@);
        n
    }

    /// For each group, how many members joined it.
    pub fn get_group_members_count(&self, group_identifiers: &Vec<Principal>) -> (r: Vec<(Principal, usize)>)
        requires
            self.wf(),
        ensures
            r@.len() == group_identifiers@.len(),
            forall|k: int| 0 <= k < r@.len() ==> (#[trigger] r@[k]).0@ == group_identifiers@[k]@
                && r@[k].1 == members_in(self.entries@, group_identifiers@[k]@).len(),
    {
        let mut out: Vec<(Principal, usize)> = Vec::new();
        let mut k: usize = 0;
        while k < group_identifiers.len()
            invariant
                self.wf(),
                k <= group_identifiers@.len(),
                out@.len() == k,
                forall|j: int| 0 <= j < k ==> (#[trigger] out@[j]).0@ == group_identifiers@[j]@
                    && out@[j].1 == members_in(self.entries@, group_identifiers@[j]@).len(),
            decreases group_identifiers@.len() - k,
        {
            let g = &group_identifiers[k];
            out.push((g.duplicate(), self.member_count_for_group(g)));
            k = k + 1;
        }
        out
    }

    /// For each group, how many members hold an invite to it.
    pub fn get_group_invites_count(&self, group_identifiers: &Vec<Principal>) -> (r: Vec<(Principal, usize)>)
        requires
            self.wf(),
        ensures
            r@.len() == group_identifiers@.len(),
            forall|k: int| 0 <= k < r@.len() ==> (#[trigger] r@[k]).0@ == group_identifiers@[k]@
                && r@[k].1 == invitees_of(self.entries@, group_identifiers@[k]@).len(),
    {
        let mut out: Vec<(Principal, usize)> = Vec::new();
        let mut k: usize = 0;
        while k < group_identifiers.len()
            invariant
                self.wf(),
                k <= group_identifiers@.len(),
                out@.len() == k,
                forall|j: int| 0 <= j < k ==> (#[trigger] out@[j]).0@ == group_identifiers@[j]@
                    && out@[j].1 == invitees_of(self.entries@, group_identifiers@[j]@).len(),
            decreases group_identifiers@.len() - k,
        {
            let g = &group_identifiers[k];
            out.push((g.duplicate(), self.invite_count_for_group(g)));
            k = k + 1;
        }
        out
    }

    /// For each member identifier, the groups that member joined (none for an
    /// unknown identifier).
    pub fn get_groups_for_members(&self, member_identifiers: &Vec<Principal>) -> (r: Vec<(Principal, Vec<Principal>)>)
        requires
            self.wf(),
        ensures
            r@.len() == member_identifiers@.len(),
            forall|k: int| 0 <= k < r@.len() ==> (#[trigger] r@[k]).0@ == member_identifiers@[k]@
                && keys_view(r@[k].1@) == groups_of(*self, member_identifiers@[k]@),
    {
        let mut out: Vec<(Principal, Vec<Principal>)> = Vec::new();
        let mut k: usize = 0;
        while k < member_identifiers.len()
            invariant
                self.wf(),
                k <= member_identifiers@.len(),
                out@.len() == k,
                forall|j: int| 0 <= j < k ==> (#[trigger] out@[j]).0@ == member_identifiers@[j]@
                    && keys_view(out@[j].1@) == groups_of(*self, member_identifiers@[j]@),
            decreases member_identifiers@.len() - k,
        {
            let id = &member_identifiers[k];
            let mut groups: Vec<Principal> = Vec::new();
            match self.find_id(id) {
                None => {
                    assert(keys_view(groups@) =~= Seq::<Seq<u8>>::empty());
                },
                Some(i) => {
                    let joined = &self.entries[i].1.joined;
                    let mut j: usize = 0;
                    while j < joined.len()
                        invariant
                            j <= joined@.len(),
                            keys_view(groups@) == joined@.subrange(0, j as int).map_values(|p: (Principal, Join)| p.0@),
                        decreases joined@.len() - j,
                    {
                        let ghost before = groups@;
                        groups.push(joined[j].0.duplicate());
                        assert(keys_view(groups@) =~= keys_view(before).push(joined@[j as int].0@));
                        assert(joined@.subrange(0, j as int + 1).map_values(|p: (Principal, Join)| p.0@) =~= joined@.subrange(0, j as int).map_values(|p: (Principal, Join)| p.0@).push(joined@[j as int].0@));
                        j = j + 1;
                    }
                    assert(joined@.subrange(0, joined@.len() as int) =~= joined@);
                },
            }
            out.push((id.duplicate(), groups));
            k = k + 1;
        }
        out
    }

    /// The member under identifier `id`.
    pub fn get_entry(&self, id: &Principal) -> (r: Result<(Principal, Member), ApiError>)
        requires
            self.wf(),
        ensures
            !self.has_id(id@) ==> r == Err::<(Principal, Member), ApiError>(ApiError::NotFound(ErrorCode::EntryNotFound)),
            self.has_id(id@) ==> (r matches Ok((k, m)) && k@ == id@ && m.same_as(&self.entries@[self.index_of_id(id@)].1) && m.wf()),
    {
        match self.find_id(id) {
            None => Err(ApiError::NotFound(ErrorCode::EntryNotFound)),
            Some(i) => Ok((self.entries[i].0.duplicate(), self.entries[i].1.duplicate())),
        }
    }

    /// Replaces the member under identifier `id`; an identifier that is not in
    /// the store is refused, never added, and so is a record whose principal
    /// differs from the stored one.
    pub fn update_entry(&mut self, id: &Principal, member: Member) -> (r: Result<(Principal, Member), ApiError>)
        requires
            old(self).wf(),
            member.wf(),
        ensures
            final(self).wf(),
            final(self).shard == old(self).shard,
            final(self).capacity == old(self).capacity,
            !old(self).has_id(id@) ==> r == Err::<(Principal, Member), ApiError>(ApiError::NotFound(ErrorCode::EntryNotFound))
                && final(self).entries@ == old(self).entries@,
            old(self).has_id(id@) && old(self).entries@[old(self).index_of_id(id@)].1.principal@ != member.principal@
                ==> r == Err::<(Principal, Member), ApiError>(ApiError::BadRequest(ErrorCode::PrincipalMismatch))
                && final(self).entries@ == old(self).entries@,
            old(self).has_id(id@) && old(self).entries@[old(self).index_of_id(id@)].1.principal@ == member.principal@ ==> {
                let i = old(self).index_of_id(id@);
                &&& only_entry_changed(old(self).entries@, final(self).entries@, i)
                &&& final(self).entries@[i].1 == member
                &&& r matches Ok((k, m)) && k@ == id@ && m.same_as(&member)
            },
            old(self).all_disjoint() && member.disjoint() ==> final(self).all_disjoint(),
    {
        match self.find_id(id) {
            None => Err(ApiError::NotFound(ErrorCode::EntryNotFound)),
            Some(i) => {
                if !self.entries[i].1.principal.same(&member.principal) {
                    return Err(ApiError::BadRequest(ErrorCode::PrincipalMismatch));
                }
                let out = (self.entries[i].0.duplicate(), member.duplicate());
                self.set_member(i, member);
                Ok(out)
            },
        }
    }

    /// Every (identifier, member) pair, in the order in which they were added.
    pub fn get_entries(&self) -> (r: Vec<(Principal, Member)>)
        requires
            self.wf(),
        ensures
            r@.len() == self.entries@.len(),
            forall|k: int| 0 <= k < r@.len() ==> (#[trigger] r@[k]).0@ == self.entries@[k].0@ && r@[k].1.same_as(&self.entries@[k].1) && r@[k].1.wf(),
    {
        let mut out: Vec<(Principal, Member)> = Vec::new();
        let mut k: usize = 0;
        while k < self.entries.len()
            invariant
                self.wf(),
                k <= self.entries@.len(),
                out@.len() == k,
                forall|j: int| 0 <= j < k ==> (#[trigger] out@[j]).0@ == self.entries@[j].0@ && out@[j].1.same_as(&self.entries@[j].1) && out@[j].1.wf(),
            decreases self.entries@.len() - k,
        {
            out.push((self.entries[k].0.duplicate(), self.entries[k].1.duplicate()));
            k = k + 1;
        }
        out
    }



    /// A member's membership in a group, as handed to readers (no roles where it
    /// has not joined).
    pub fn map_member_to_joined_member_response(identifier: &Principal, member: &Member, group: &Principal) -> (r: JoinedMemberResponse)
        requires
            member.wf(),
        ensures
            is_joined_response(r, (*identifier, *member), group@),
    {
        let roles = match member.find_join(group) {
            None => {
                let v: Vec<String> = Vec::new();
                assert(roles_view(v@) =~= Seq::<Seq<char>>::empty());
                v
            },
            Some(k) => member.joined[k].1.roles.clone(),
        };
        JoinedMemberResponse {
            group_identifier: group.duplicate(),
            member_identifier: identifier.duplicate(),
            principal: member.principal.duplicate(),
            roles,
        }
    }

    /// A member's invite to a group, as handed to readers.
    pub fn map_member_to_invite_member_response(identifier: &Principal, member: &Member, group: &Principal) -> (r: InviteMemberResponse)
        requires
            member.wf(),
            member.invites_map().contains_key(group@),
        ensures
            is_invite_response(r, (*identifier, *member), group@),
    {
        let k = member.find_invite(group).unwrap();
        InviteMemberResponse {
            group_identifier: group.duplicate(),
            member_identifier: identifier.duplicate(),
            principal: member.principal.duplicate(),
            invite: member.invites[k].1,
        }
    }

    /// Adds a member under a fresh identifier, unless the shard is full.
    pub fn add_entry(&mut self, member: Member) -> (r: Result<(Principal, Member), ApiError>)
        requires
            old(self).wf(),
            member.wf(),
            !old(self).has_member(member.principal@),
        ensures
            final(self).wf(),
            final(self).shard == old(self).shard,
            final(self).capacity == old(self).capacity,
            old(self).entries@.len() >= old(self).capacity ==> r == Err::<(Principal, Member), ApiError>(
                ApiError::CanisterAtCapacity,
            ) && final(self).entries@ == old(self).entries@,
            old(self).entries@.len() < old(self).capacity ==> {
                &&& final(self).entries@ == old(self).entries@.push(final(self).entries@.last())
                &&& final(self).entries@.last().1 == member
                &&& r matches Ok((id, m)) && id@ == final(self).entries@.last().0@ && m.same_as(&member)
                    && m.wf()
            },
            member.disjoint() && old(self).all_disjoint() ==> final(self).all_disjoint(),
    {
        if self.entries.len() >= self.capacity {
            return Err(ApiError::CanisterAtCapacity);
        }
        let kind = member_kind_bytes();
        let n = self.entries.len();
        let id = principal::encode(&kind, &self.shard, n as u64);
        let out = (id.duplicate(), member.duplicate());
        self.entries.push((id, member));
        proof {
            assert forall|i: int| 0 <= i < self.entries@.len() implies (#[trigger] self.entries@[i]).0@
                == encode_spec(i as u64, self.shard@, member_kind()) && self.entries@[i].1.wf() by {
                if i < n {
                    assert(self.entries@[i] == old(self).entries@[i]);
                }
            }
            assert forall|i: int| 0 <= i < self.entries@.len() && member.disjoint() && old(self).all_disjoint() implies (#[trigger] self.entries@[i]).1.disjoint() by {
                if i < n {
                    assert(self.entries@[i] == old(self).entries@[i]);
                }
            }
            assert forall|a: int, b: int|
                0 <= a < self.entries@.len() && 0 <= b < self.entries@.len() && a != b implies (#[trigger] self.entries@[a]).1.principal@
                    != (#[trigger] self.entries@[b]).1.principal@ by {
                if a < n && b < n {
                    assert(self.entries@[a] == old(self).entries@[a]);
                    assert(self.entries@[b] == old(self).entries@[b]);
                } else if a < n {
                    assert(self.entries@[a] == old(self).entries@[a]);
                    assert(old(self).entries@[a].1.principal@ != member.principal@);
                } else {
                    assert(self.entries@[b] == old(self).entries@[b]);
                    assert(old(self).entries@[b].1.principal@ != member.principal@);
                }
            }
            assert(self.entries@ =~= old(self).entries@.push(self.entries@.last()));
        }
        Ok(out)
    }
}

/// The kind tag of profile identifiers: the bytes of "pfe".
pub open spec fn profile_kind() -> Seq<u8> {
    seq![112u8, 102u8, 101u8]
}

/// The principal decodes to an identifier of kind "pfe".
pub open spec fn is_profile_identifier(p: Seq<u8>) -> bool {
    decodable(p) && decode_spec(p).2 == profile_kind()
}

/// The entry's member joined `g`.
pub open spec fn joins_group(g: Seq<u8>) -> spec_fn((Principal, Member)) -> bool {
    |e: (Principal, Member)| e.1.joined_map().contains_key(g)
}

/// The entry's member holds an invite to `g`.
pub open spec fn invited_to(g: Seq<u8>) -> spec_fn((Principal, Member)) -> bool {
    |e: (Principal, Member)| e.1.invites_map().contains_key(g)
}

/// The entries whose member joined `g`, in order.
pub open spec fn members_in(entries: Seq<(Principal, Member)>, g: Seq<u8>) -> Seq<(Principal, Member)> {
    entries.filter(joins_group(g))
}

/// The entries whose member holds an invite to `g`, in order.
pub open spec fn invitees_of(entries: Seq<(Principal, Member)>, g: Seq<u8>) -> Seq<(Principal, Member)> {
    entries.filter(invited_to(g))
}

pub open spec fn keys_view(s: Seq<Principal>) -> Seq<Seq<u8>> {
    s.map_values(|p: Principal| p@)
}

/// The groups that the member with identifier `id` joined, in its order.
pub open spec fn groups_of(s: Store, id: Seq<u8>) -> Seq<Seq<u8>> {
    if s.has_id(id) {
        s.entries@[s.index_of_id(id)].1.joined@.map_values(|p: (Principal, Join)| p.0@)
    } else {
        Seq::empty()
    }
}

/// `x` describes entry `e`'s membership in `g`.
pub open spec fn is_joined_response(x: JoinedMemberResponse, e: (Principal, Member), g: Seq<u8>) -> bool {
    &&& x.group_identifier@ == g
    &&& x.member_identifier@ == e.0@
    &&& x.principal@ == e.1.principal@
    &&& roles_view(x.roles@) == e.1.roles_in(g)
}

/// `x` describes entry `e`'s invite to `g`.
pub open spec fn is_invite_response(x: InviteMemberResponse, e: (Principal, Member), g: Seq<u8>) -> bool {
    &&& x.group_identifier@ == g
    &&& x.member_identifier@ == e.0@
    &&& x.principal@ == e.1.principal@
    &&& x.invite == e.1.invites_map()[g]
}

} // verus!
