//! The shard coordinator: a registry of member stores that grows by one store
//! whenever the newest one is full.
use vstd::prelude::*;
use crate::gate::{Admission, Privacy, admission, admission_spec};
use crate::model::{ApiError, ErrorCode, Member};
use crate::principal::{self, Principal, decodable, decode_spec};
use crate::membership::{admitted, join_group_effect, new_invited_member, new_joined_member, user_request};
use crate::roles::member_role_name;
use crate::store::{Store, MAX_SHARD_CAPACITY, member_kind};

verus! {

/// The shards of the member store, oldest first; new members go to the last.
pub struct ShardRegistry {
    pub shards: Vec<Store>,
    /// How many members each shard may hold.
    pub capacity: usize,
}

impl ShardRegistry {
    pub open spec fn wf(&self) -> bool {
        &&& self.shards@.len() > 0
        &&& 0 < self.capacity <= MAX_SHARD_CAPACITY
        &&& forall|k: int| 0 <= k < self.shards@.len() ==> (#[trigger] self.shards@[k]).wf() && self.shards@[k].capacity
            == self.capacity
    }

    /// A registry of one empty shard at `first_shard`.
    pub fn new(first_shard: Principal, capacity: usize) -> (r: ShardRegistry)
        requires
            first_shard@.len() <= 18,
            0 < capacity <= MAX_SHARD_CAPACITY,
        ensures
            r.wf(),
            r.shards@.len() == 1,
            r.shards@[0].shard@ == first_shard@,
            r.shards@[0].entries@.len() == 0,
    {
        let first = Store::new(first_shard, capacity);
        ShardRegistry { shards: vec![first], capacity }
    }

    /// The shard that new members are written to.
    pub fn current(&self) -> (r: usize)
        requires
            self.wf(),
        ensures
            r == self.shards@.len() - 1,
    {
        self.shards.len() - 1
    }

    /// Registers a new shard at `new_shard` and places the pending member on it.
    pub fn on_capacity_exceeded(&mut self, new_shard: Principal, pending: Member) -> (r: Result<(Principal, Member), ApiError>)
        requires
            old(self).wf(),
            new_shard@.len() <= 18,
            pending.wf(),
        ensures
            final(self).wf(),
            final(self).capacity == old(self).capacity,
            final(self).shards@.len() == old(self).shards@.len() + 1,
            forall|k: int| 0 <= k < old(self).shards@.len() ==> #[trigger] final(self).shards@[k] == old(self).shards@[k],
            ({
                let s = final(self).shards@.last();
                &&& s.shard@ == new_shard@
                &&& s.entries@.len() == 1
                &&& s.entries@[0].1 == pending
                &&& s.entries@[0].0@ == principal::encode_spec(0, new_shard@, member_kind())
                &&& r matches Ok((id, m)) && id@ == s.entries@[0].0@ && m.same_as(&pending)
            }),
    {
        let mut store = Store::new(new_shard, self.capacity);
        let r = store.add_entry(pending);
        self.shards.push(store);
        proof {
            assert forall|k: int| 0 <= k < self.shards@.len() implies (#[trigger] self.shards@[k]).wf() && self.shards@[k].capacity
                == self.capacity by {
                if k < old(self).shards@.len() {
                    assert(self.shards@[k] == old(self).shards@[k]);
                }
            }
        }
        r
    }

    /// Adds a member to the newest shard, unless that shard already holds a
    /// record for its principal. Where that shard is full, a shard at
    /// `new_shard` is registered and the member placed there, and the caller is
    /// still told that the shard was at capacity.
    pub fn add(&mut self, member: Member, new_shard: Principal) -> (r: Result<(Principal, Member), ApiError>)
        requires
            old(self).wf(),
            new_shard@.len() <= 18,
            member.wf(),
        ensures
            final(self).wf(),
            final(self).capacity == old(self).capacity,
            forall|k: int| 0 <= k < old(self).shards@.len() - 1 ==> #[trigger] final(self).shards@[k] == old(self).shards@[k],
            ({
                let last = old(self).shards@.len() - 1;
                let full = old(self).shards@[last].entries@.len() >= old(self).capacity;
                let known = old(self).shards@[last].has_member(member.principal@);
                &&& known ==> r == Err::<(Principal, Member), ApiError>(ApiError::BadRequest(ErrorCode::AlreadyMember))
                    && final(self).shards@ == old(self).shards@
                &&& full && !known ==> {
                    let s = final(self).shards@.last();
                    &&& r == Err::<(Principal, Member), ApiError>(ApiError::CanisterAtCapacity)
                    &&& final(self).shards@.len() == old(self).shards@.len() + 1
                    &&& final(self).shards@[last] == old(self).shards@[last]
                    &&& s.shard@ == new_shard@
                    &&& s.entries@.len() == 1
                    &&& s.entries@[0].1 == member
                }
                &&& !full && !known ==> {
                    let s = final(self).shards@[last];
                    &&& final(self).shards@.len() == old(self).shards@.len()
                    &&& s.entries@ == old(self).shards@[last].entries@.push(s.entries@.last())
                    &&& s.entries@.last().1 == member
                    &&& r matches Ok((id, m)) && id@ == s.entries@.last().0@ && m.same_as(&member)
                }
            }),
    {
        let last = self.shards.len() - 1;
        if self.shards[last].find_member(&member.principal).is_some() {
            return Err(ApiError::BadRequest(ErrorCode::AlreadyMember));
        }
        if self.shards[last].is_at_capacity() {
            let _ = self.on_capacity_exceeded(new_shard, member);
            return Err(ApiError::CanisterAtCapacity);
        }
        let mut store = self.shards.remove(last);
        let r = store.add_entry(member);
        self.shards.push(store);
        proof {
            assert forall|k: int| 0 <= k < self.shards@.len() implies (#[trigger] self.shards@[k]).wf() && self.shards@[k].capacity
                == self.capacity by {
                if k < last {
                    assert(self.shards@[k] == old(self).shards@[k]);
                }
            }
        }
        r
    }

    /// The caller joins a group through the newest shard. Where that shard is
    /// full and the caller has no record there, a shard at `new_shard` is
    /// registered and the new record placed on it, and the caller is told that
    /// the shard was at capacity.
    pub fn join_group(
        &mut self,
        caller: &Principal,
        group: &Principal,
        owner_and_privacy: Result<(Principal, Privacy), ApiError>,
        gate_results: &Vec<bool>,
        now: u64,
        new_shard: Principal,
    ) -> (r: Result<(Principal, Member), ApiError>)
        requires
            old(self).wf(),
            new_shard@.len() <= 18,
        ensures
            final(self).wf(),
            final(self).capacity == old(self).capacity,
            forall|k: int| 0 <= k < old(self).shards@.len() - 1 ==> #[trigger] final(self).shards@[k] == old(self).shards@[k],
            ({
                let last = old(self).shards@.len() - 1;
                let o = old(self).shards@[last];
                let n = final(self).shards@[last];
                &&& owner_and_privacy matches Err(e) ==> r == Err::<(Principal, Member), ApiError>(e)
                    && final(self).shards@.len() == old(self).shards@.len() && n.entries@ == o.entries@
                &&& owner_and_privacy matches Ok((_, privacy)) ==> {
                    &&& join_group_effect(o, n, caller@, group@, privacy, gate_results@, now, r)
                    &&& admission_spec(privacy, gate_results@) is Ok && !o.has_member(caller@)
                        && o.entries@.len() >= o.capacity ==> {
                        let s = final(self).shards@.last();
                        let a = admission_spec(privacy, gate_results@)->Ok_0;
                        &&& final(self).shards@.len() == old(self).shards@.len() + 1
                        &&& s.shard@ == new_shard@
                        &&& s.entries@.len() == 1
                        &&& admitted(None, s.entries@[0].1, caller@, group@, a, now)
                    }
                    &&& !(admission_spec(privacy, gate_results@) is Ok && !o.has_member(caller@)
                        && o.entries@.len() >= o.capacity) ==> final(self).shards@.len() == old(self).shards@.len()
                }
            }),
    {
        let last = self.shards.len() - 1;
        let decided = match &owner_and_privacy {
            Ok((_, privacy)) => Some(admission(privacy, gate_results)),
            Err(_) => None,
        };
        let spills = match decided {
            Some(Ok(_)) => self.shards[last].find_member(caller).is_none() && self.shards[last].is_at_capacity(),
            _ => false,
        };
        let mut store = self.shards.remove(last);
        let r = store.join_group(caller, group, owner_and_privacy, gate_results, now);
        self.shards.push(store);
        proof {
            assert forall|k: int| 0 <= k < self.shards@.len() implies (#[trigger] self.shards@[k]).wf() && self.shards@[k].capacity
                == self.capacity by {
                if k < last {
                    assert(self.shards@[k] == old(self).shards@[k]);
                }
            }
            assert(self.shards@ =~= old(self).shards@.update(last as int, self.shards@[last as int]));
        }
        if spills {
            let pending = match decided {
                Some(Ok(Admission::Join)) => new_joined_member(caller, group, member_role_name(), now),
                _ => new_invited_member(caller, group, user_request(now)),
            };
            let ghost before = self.shards@;
            let _ = self.on_capacity_exceeded(new_shard, pending);
            proof {
                assert forall|k: int| 0 <= k < old(self).shards@.len() - 1 implies #[trigger] self.shards@[k] == old(self).shards@[k] by {
                    assert(self.shards@[k] == before[k]);
                }
            }
        }
        r
    }

    /// The shard that the identifier `id` routes to: the one whose address the
    /// identifier carries.
    pub fn route(&self, id: &Principal) -> (r: Option<usize>)
        requires
            self.wf(),
        ensures
            r matches Some(k) ==> k < self.shards@.len() && decodable(id@) && self.shards@[k as int].shard@ == decode_spec(id@).1,
            r is None ==> !decodable(id@) || forall|k: int| 0 <= k < self.shards@.len() ==> (#[trigger] self.shards@[k]).shard@ != decode_spec(id@).1,
    {
        let shard = match principal::decode(id) {
            None => return None,
            Some((_, shard, _)) => shard,
        };
        assert(decodable(id@));
        let mut k: usize = 0;
        while k < self.shards.len()
            invariant
                k <= self.shards@.len(),
                shard@ == decode_spec(id@).1,
                decodable(id@),
                forall|j: int| 0 <= j < k ==> (#[trigger] self.shards@[j]).shard@ != shard@,
            decreases self.shards@.len() - k,
        {
            if self.shards[k].shard.same(&shard) {
                return Some(k);
            }
            k = k + 1;
        }
        None
    }
}

} // verus!
