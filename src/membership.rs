//! What admission makes of a member's record, and what the membership
//! operations promise about the store.
use vstd::prelude::*;
use crate::gate::{Admission, Privacy, admission, admission_spec};
use crate::keyed::{self, lemma_as_map_empty, lemma_as_map_single};
use crate::model::{ApiError, ErrorCode, Invite, InviteType, Join, Member, roles_view};
use crate::principal::Principal;
use crate::roles::{fresh_join, member_role, member_role_name};
use crate::store::{Store, only_entry_changed, with_invites, with_joins};

verus! {

/// A record made for a principal that had none.
pub open spec fn is_new_member(
    n: Member,
    caller: Seq<u8>,
    joined: Map<Seq<u8>, (Seq<Seq<char>>, u64, u64)>,
    invites: Map<Seq<u8>, Invite>,
) -> bool {
    &&& n.wf()
    &&& n.principal@ == caller
    &&& n.profile_identifier@ == seq![4u8]
    &&& n.joined_map() == joined
    &&& n.invites_map() == invites
}

/// A record for `caller` with one join to `group` holding `role`.
pub fn new_joined_member(caller: &Principal, group: &Principal, role: String, now: u64) -> (r: Member)
    ensures
        is_new_member(r, caller@, map![group@ => fresh_join(role@, now)], Map::empty()),
        r.disjoint(),
{
    let roles = vec![role];
    assert(roles_view(roles@) =~= seq![role@]);
    let join = Join { roles, updated_at: now, created_at: now };
    let r = Member {
        principal: caller.duplicate(),
        profile_identifier: Principal::anonymous(),
        joined: vec![(group.duplicate(), join)],
        invites: Vec::new(),
    };
    proof {
        lemma_as_map_single(r.joined@);
        lemma_as_map_empty(r.invites@);
        assert(map![group@ => fresh_join(role@, now)] =~= Map::empty().insert(group@, fresh_join(role@, now)));
    }
    r
}

/// A record for `caller` with one invite to `group`.
pub fn new_invited_member(caller: &Principal, group: &Principal, invite: Invite) -> (r: Member)
    ensures
        is_new_member(r, caller@, Map::empty(), map![group@ => invite]),
        r.disjoint(),
{
    let r = Member {
        principal: caller.duplicate(),
        profile_identifier: Principal::anonymous(),
        joined: Vec::new(),
        invites: vec![(group.duplicate(), invite)],
    };
    proof {
        lemma_as_map_single(r.invites@);
        lemma_as_map_empty(r.joined@);
        assert(map![group@ => invite] =~= Map::empty().insert(group@, invite));
    }
    r
}

/// The member that joining `group` makes of `member` (or of a new record for
/// `caller`), as `admission` decides; a refusal is passed on.
pub fn add_invite_or_join_group_to_member(
    caller: &Principal,
    group: &Principal,
    member: Option<Member>,
    privacy: &Privacy,
    gate_results: &Vec<bool>,
    now: u64,
) -> (r: Result<Member, ApiError>)
    requires
        member matches Some(m) ==> m.wf(),
    ensures
        admission_spec(*privacy, gate_results@) matches Err(e) ==> r == Err::<Member, ApiError>(e),
        admission_spec(*privacy, gate_results@) matches Ok(a) ==> r matches Ok(n) && admitted(member, n, caller@, group@, a, now),
{
    let a = match admission(privacy, gate_results) {
        Err(e) => return Err(e),
        Ok(a) => a,
    };
    match member {
        None => match a {
            Admission::Join => Ok(new_joined_member(caller, group, member_role_name(), now)),
            Admission::Invite => Ok(new_invited_member(caller, group, user_request(now))),
        },
        Some(m) => {
            let mut m = m;
            match a {
                Admission::Join => {
                    let roles = vec![member_role_name()];
                    assert(roles_view(roles@) =~= seq![member_role()]);
                    keyed::put(&mut m.joined, group.duplicate(), Join { roles, updated_at: now, created_at: now });
                },
                Admission::Invite => {
                    keyed::put(&mut m.invites, group.duplicate(), user_request(now));
                },
            }
            Ok(m)
        },
    }
}

/// A user's request to join, made at `now`.
pub fn user_request(now: u64) -> (r: Invite)
    ensures
        r == (Invite { invite_type: InviteType::UserRequest, updated_at: now, created_at: now }),
{
    Invite { invite_type: InviteType::UserRequest, updated_at: now, created_at: now }
}

/// `n` is `member` (or a new record for `caller`) with a join to `group`, or
/// with a user request for it, as `a` says.
pub open spec fn admitted(member: Option<Member>, n: Member, caller: Seq<u8>, g: Seq<u8>, a: Admission, now: u64) -> bool {
    let inv = Invite { invite_type: InviteType::UserRequest, updated_at: now, created_at: now };
    match member {
        None => match a {
            Admission::Join => is_new_member(n, caller, map![g => fresh_join(member_role(), now)], Map::empty()),
            Admission::Invite => is_new_member(n, caller, Map::empty(), map![g => inv]),
        },
        Some(o) => match a {
            Admission::Join => with_joins(o, n, o.joined_map().insert(g, fresh_join(member_role(), now))),
            Admission::Invite => with_invites(o, n, o.invites_map().insert(g, inv)),
        },
    }
}

/// The entry at `i` was rewritten and handed back with its identifier.
pub open spec fn updated(o: Store, n: Store, i: int, r: Result<(Principal, Member), ApiError>) -> bool {
    &&& only_entry_changed(o.entries@, n.entries@, i)
    &&& r matches Ok((id, m)) && id@ == o.entries@[i].0@ && m.same_as(&n.entries@[i].1)
}

/// A record that `made` describes was added, or the shard was full.
pub open spec fn added_new(o: Store, n: Store, r: Result<(Principal, Member), ApiError>, made: spec_fn(Member) -> bool) -> bool {
    &&& o.entries@.len() >= o.capacity ==> r == Err::<(Principal, Member), ApiError>(ApiError::CanisterAtCapacity)
    &&& o.entries@.len() < o.capacity ==> {
        &&& n.entries@ == o.entries@.push(n.entries@.last())
        &&& made(n.entries@.last().1)
        &&& r matches Ok((id, m)) && id@ == n.entries@.last().0@ && m.same_as(&n.entries@.last().1)
    }
}

/// What joining does: a caller already joined or invited is refused; otherwise
/// the caller's record (a new one where it has none) gets what `admission` decides.
pub open spec fn join_group_effect(
    o: Store,
    n: Store,
    caller: Seq<u8>,
    g: Seq<u8>,
    privacy: Privacy,
    gate_results: Seq<bool>,
    now: u64,
    r: Result<(Principal, Member), ApiError>,
) -> bool {
    &&& o.has_member(caller) ==> {
        let i = o.member_of(caller);
        let m = o.entries@[i].1;
        &&& m.joined_map().contains_key(g) ==> r == Err::<(Principal, Member), ApiError>(ApiError::BadRequest(ErrorCode::AlreadyJoined))
        &&& !m.joined_map().contains_key(g) && m.invites_map().contains_key(g) ==> r == Err::<(Principal, Member), ApiError>(
            ApiError::BadRequest(ErrorCode::PendingInvite))
        &&& !m.joined_map().contains_key(g) && !m.invites_map().contains_key(g) ==> {
            &&& admission_spec(privacy, gate_results) matches Err(e) ==> r == Err::<(Principal, Member), ApiError>(e)
            &&& admission_spec(privacy, gate_results) matches Ok(a) ==> updated(o, n, i, r) && admitted(Some(m), n.entries@[i].1, caller, g, a, now)
        }
    }
    &&& !o.has_member(caller) ==> {
        &&& admission_spec(privacy, gate_results) matches Err(e) ==> r == Err::<(Principal, Member), ApiError>(e)
        &&& admission_spec(privacy, gate_results) matches Ok(a) ==> added_new(o, n, r, |x: Member| admitted(None, x, caller, g, a, now))
    }
}

/// What accepting an invite does: the member's invite to `g`, which must be of
/// type `expected`, becomes a join with the member role.
pub open spec fn accept_effect(o: Store, n: Store, p: Seq<u8>, g: Seq<u8>, expected: InviteType, now: u64, r: Result<(Principal, Member), ApiError>) -> bool {
    &&& r is Err ==> n.entries@ == o.entries@
    &&& !o.has_member(p) ==> r == Err::<(Principal, Member), ApiError>(ApiError::NotFound(ErrorCode::MemberNotFound))
    &&& o.has_member(p) ==> {
        let i = o.member_of(p);
        let m = o.entries@[i].1;
        &&& !m.invites_map().contains_key(g) ==> r == Err::<(Principal, Member), ApiError>(ApiError::NotFound(ErrorCode::NoInviteFound))
        &&& m.invites_map().contains_key(g) && m.invites_map()[g].invite_type != expected ==> r == Err::<(Principal, Member), ApiError>(
            ApiError::BadRequest(ErrorCode::InvalidType))
        &&& m.invites_map().contains_key(g) && m.invites_map()[g].invite_type == expected ==> {
            let x = n.entries@[i].1;
            &&& updated(o, n, i, r)
            &&& x.wf()
            &&& x.principal@ == m.principal@
            &&& x.profile_identifier@ == m.profile_identifier@
            &&& x.joined_map() == m.joined_map().insert(g, fresh_join(member_role(), now))
            &&& x.invites_map() == m.invites_map().remove(g)
        }
    }
}

} // verus!
