//! Role names and role lists: adding, filtering and counting roles.
use vstd::prelude::*;
use crate::model::roles_view;
use crate::store::{Store, only_entry_changed, with_joins};

verus! {

/// The join that a new membership gets: one role, both timestamps `now`.
pub open spec fn fresh_join(role: Seq<char>, now: u64) -> (Seq<Seq<char>>, u64, u64) {
    (seq![role], now, now)
}

/// The role that every admitted member gets.
pub open spec fn member_role() -> Seq<char> {
    seq!['m', 'e', 'm', 'b', 'e', 'r']
}

/// The role that a group's creator gets.
pub open spec fn owner_role() -> Seq<char> {
    seq!['o', 'w', 'n', 'e', 'r']
}

pub fn member_role_name() -> (r: String)
    ensures
        r@ == member_role(),
{
    let r = String::from_str("member");
    proof {
        reveal_strlit("member");
    }
    r
}

pub fn owner_role_name() -> (r: String)
    ensures
        r@ == owner_role(),
{
    let r = String::from_str("owner");
    proof {
        reveal_strlit("owner");
    }
    r
}

/// What `set_roles` does: the roles of a joined member in the group become
/// `roles` without repeats; an unknown identifier is refused; a group not joined is left alone.
pub open spec fn set_roles_effect(o: Store, n: Store, roles: Seq<Seq<char>>, id: Seq<u8>, g: Seq<u8>, now: u64, r: Result<(), ()>) -> bool {
    &&& !o.has_id(id) ==> r is Err && n.entries@ == o.entries@
    &&& o.has_id(id) ==> {
        let i = o.index_of_id(id);
        let m = o.entries@[i].1;
        &&& !m.joined_map().contains_key(g) ==> r is Ok && n.entries@ == o.entries@
        &&& m.joined_map().contains_key(g) ==> {
            &&& r is Ok
            &&& only_entry_changed(o.entries@, n.entries@, i)
            &&& with_joins(m, n.entries@[i].1, m.joined_map().insert(g,
                (distinct_roles(roles), touched(now, m.joined_map()[g].2), m.joined_map()[g].2)))
        }
    }
}

/// The time a join is stamped with when changed at `now`: never before it was created.
pub open spec fn touched(now: u64, created: u64) -> u64 {
    if now >= created {
        now
    } else {
        created
    }
}

pub fn touched_at(now: u64, created: u64) -> (r: u64)
    ensures
        r == touched(now, created),
        r >= created,
{
    if now >= created {
        now
    } else {
        created
    }
}

/// The roles in order, each kept at its first occurrence only.
pub open spec fn distinct_roles(s: Seq<Seq<char>>) -> Seq<Seq<char>>
    decreases s.len(),
{
    if s.len() == 0 {
        Seq::empty()
    } else {
        let p = distinct_roles(s.drop_last());
        if p.contains(s.last()) {
            p
        } else {
            p.push(s.last())
        }
    }
}

/// No role occurs twice.
pub open spec fn no_repeats(s: Seq<Seq<char>>) -> bool {
    forall|i: int, j: int| 0 <= i < j < s.len() ==> s[i] != s[j]
}

/// Dropping repeats keeps exactly the roles that occur, each once.
pub proof fn lemma_distinct_roles(s: Seq<Seq<char>>)
    ensures
        no_repeats(distinct_roles(s)),
        forall|e: Seq<char>| #[trigger] distinct_roles(s).contains(e) == s.contains(e),
    decreases s.len(),
{
    if s.len() > 0 {
        let q = s.drop_last();
        lemma_distinct_roles(q);
        let p = distinct_roles(q);
        assert(s =~= q.push(s.last()));
        assert forall|e: Seq<char>| #[trigger] distinct_roles(s).contains(e) == s.contains(e) by {
            lemma_push_contains(q, s.last(), e);
            lemma_push_contains(p, s.last(), e);
        }
        if !p.contains(s.last()) {
            let d = p.push(s.last());
            assert forall|i: int, j: int| 0 <= i < j < d.len() implies d[i] != d[j] by {
                if j == p.len() {
                    assert(d[i] == p[i]);
                } else {
                    assert(d[i] == p[i] && d[j] == p[j]);
                }
            }
        }
    }
}

/// What a sequence holds after a push.
proof fn lemma_push_contains(q: Seq<Seq<char>>, a: Seq<char>, e: Seq<char>)
    ensures
        q.push(a).contains(e) == (q.contains(e) || a == e),
{
    let d = q.push(a);
    if q.contains(e) {
        let k = choose|k: int| 0 <= k < q.len() && q[k] == e;
        assert(d[k] == e);
    }
    if a == e {
        assert(d[q.len() as int] == e);
    }
    if d.contains(e) {
        let k = choose|k: int| 0 <= k < d.len() && d[k] == e;
        if k < q.len() {
            assert(q[k] == e);
        }
    }
}

/// A role that occurs once in a list without repeats is counted once.
proof fn lemma_occurs_once(u: Seq<Seq<char>>, x: Seq<char>)
    requires
        no_repeats(u),
        u.contains(x),
    ensures
        occurrences(u, x) == 1,
    decreases u.len(),
{
    reveal(Seq::filter);
    let p = u.drop_last();
    assert(u.drop_last().push(u.last()) =~= u);
    if u.last() == x {
        assert(!p.contains(x)) by {
            if p.contains(x) {
                let k = choose|k: int| 0 <= k < p.len() && p[k] == x;
                assert(u[k] == u[u.len() - 1]);
            }
        }
        lemma_no_occurrences(p, x);
    } else {
        let k = choose|k: int| 0 <= k < u.len() && u[k] == x;
        assert(k < u.len() - 1);
        assert(p[k] == x);
        assert(no_repeats(p)) by {
            assert forall|i: int, j: int| 0 <= i < j < p.len() implies p[i] != p[j] by {
                assert(p[i] == u[i] && p[j] == u[j]);
            }
        }
        lemma_occurs_once(p, x);
    }
}

/// The roles without repeats, each at its first place.
pub fn distinct_roles_of(roles: &Vec<String>) -> (r: Vec<String>)
    ensures
        roles_view(r@) == distinct_roles(roles_view(roles@)),
{
    let mut out: Vec<String> = Vec::new();
    let mut i: usize = 0;
    while i < roles.len()
        invariant
            i <= roles@.len(),
            roles_view(out@) == distinct_roles(roles_view(roles@).subrange(0, i as int)),
        decreases roles@.len() - i,
    {
        let ghost all = roles_view(roles@);
        proof {
            assert(all.subrange(0, i as int + 1).drop_last() =~= all.subrange(0, i as int));
        }
        let ghost before = out@;
        if !contains_role(&out, &roles[i]) {
            out.push(roles[i].clone());
            assert(roles_view(out@) =~= roles_view(before).push(roles@[i as int]@));
        }
        i = i + 1;
    }
    assert(roles_view(roles@).subrange(0, roles@.len() as int) =~= roles_view(roles@));
    out
}

/// Filtering out a role that does not occur changes nothing.
pub proof fn lemma_without_absent(s: Seq<Seq<char>>, role: Seq<char>)
    requires
        !s.contains(role),
    ensures
        without_role(s, role) == s,
    decreases s.len(),
{
    reveal(Seq::filter);
    if s.len() > 0 {
        assert(!s.drop_last().contains(role)) by {
            if s.drop_last().contains(role) {
                let j = choose|j: int| 0 <= j < s.drop_last().len() && s.drop_last()[j] == role;
                assert(s[j] == role);
            }
        }
        lemma_without_absent(s.drop_last(), role);
        assert(s.last() != role) by {
            if s.last() == role {
                assert(s[s.len() - 1] == role);
            }
        }
        assert(s.drop_last().push(s.last()) =~= s);
    }
}

/// The roles without any equal to `role`.
pub open spec fn without_role(roles: Seq<Seq<char>>, role: Seq<char>) -> Seq<Seq<char>> {
    roles.filter(|x: Seq<char>| x != role)
}

/// Filtering one more element of a prefix adds it when it passes.
pub proof fn lemma_filter_step<A>(s: Seq<A>, i: int, pred: spec_fn(A) -> bool)
    requires
        0 <= i < s.len(),
    ensures
        s.subrange(0, i + 1).filter(pred) == if pred(s[i]) {
            s.subrange(0, i).filter(pred).push(s[i])
        } else {
            s.subrange(0, i).filter(pred)
        },
{
    reveal(Seq::filter);
    assert(s.subrange(0, i + 1).drop_last() =~= s.subrange(0, i));
}

/// Whether `role` is among `roles`.
pub fn contains_role(roles: &Vec<String>, role: &String) -> (r: bool)
    ensures
        r == roles_view(roles@).contains(role@),
{
    let mut i: usize = 0;
    while i < roles.len()
        invariant
            i <= roles@.len(),
            forall|j: int| 0 <= j < i ==> (#[trigger] roles@[j])@ != role@,
        decreases roles@.len() - i,
    {
        if roles[i] == *role {
            assert(roles_view(roles@)[i as int] == role@);
            return true;
        }
        i = i + 1;
    }
    proof {
        if roles_view(roles@).contains(role@) {
            let j = choose|j: int| 0 <= j < roles_view(roles@).len() && roles_view(roles@)[j] == role@;
            assert(roles@[j]@ == role@);
        }
    }
    false
}

/// The roles without those equal to `role`, in their order.
pub fn filter_role(roles: &Vec<String>, role: &String) -> (r: Vec<String>)
    ensures
        roles_view(r@) == without_role(roles_view(roles@), role@),
{
    let ghost pred = |x: Seq<char>| x != role@;
    let mut out: Vec<String> = Vec::new();
    let mut i: usize = 0;
    while i < roles.len()
        invariant
            i <= roles@.len(),
            pred == (|x: Seq<char>| x != role@),
            roles_view(out@) == roles_view(roles@).subrange(0, i as int).filter(pred),
        decreases roles@.len() - i,
    {
        proof {
            lemma_filter_step(roles_view(roles@), i as int, pred);
        }
        let ghost before = out@;
        if roles[i] != *role {
            out.push(roles[i].clone());
            assert(roles_view(out@) =~= roles_view(before).push(roles@[i as int]@));
        }
        i = i + 1;
    }
    assert(roles_view(roles@).subrange(0, roles@.len() as int) =~= roles_view(roles@));
    out
}

/// How many times `x` occurs among `roles`.
pub open spec fn occurrences(roles: Seq<Seq<char>>, x: Seq<char>) -> nat {
    roles.filter(|r: Seq<char>| r == x).len()
}

/// A role that does not occur is counted zero times.
proof fn lemma_no_occurrences(s: Seq<Seq<char>>, x: Seq<char>)
    requires
        !s.contains(x),
    ensures
        occurrences(s, x) == 0,
    decreases s.len(),
{
    reveal(Seq::filter);
    if s.len() > 0 {
        assert(!s.drop_last().contains(x)) by {
            if s.drop_last().contains(x) {
                let j = choose|j: int| 0 <= j < s.drop_last().len() && s.drop_last()[j] == x;
                assert(s[j] == x);
            }
        }
        lemma_no_occurrences(s.drop_last(), x);
        assert(s.last() != x) by {
            if s.last() == x {
                assert(s[s.len() - 1] == x);
            }
        }
    }
}

/// Setting a joined member's roles to its current roles plus one more leaves
/// that role among its roles exactly once, and keeps every role it held.
pub proof fn lemma_set_roles_round_trip(o: Store, n: Store, id: Seq<u8>, g: Seq<u8>, x: Seq<char>, now: u64, r: Result<(), ()>)
    requires
        o.wf(),
        n.wf(),
        o.has_id(id),
        o.entries@[o.index_of_id(id)].1.joined_map().contains_key(g),
        set_roles_effect(o, n, o.entries@[o.index_of_id(id)].1.roles_in(g).push(x), id, g, now, r),
    ensures
        r is Ok,
        n.has_id(id),
        occurrences(n.entries@[n.index_of_id(id)].1.roles_in(g), x) == 1,
        forall|e: Seq<char>| o.entries@[o.index_of_id(id)].1.roles_in(g).contains(e) ==> #[trigger] n.entries@[n.index_of_id(
            id,
        )].1.roles_in(g).contains(e),
{
    let i = o.index_of_id(id);
    let old_roles = o.entries@[i].1.roles_in(g);
    assert(o.entries@[i].0@ == id);
    assert(n.entries@[i].0@ == id);
    assert(n.has_id(id));
    let j = n.index_of_id(id);
    n.lemma_ids_distinct();
    assert(n.entries@[j].0@ == id);
    assert(j == i);
    let wanted = old_roles.push(x);
    let nr = n.entries@[i].1.roles_in(g);
    assert(nr == distinct_roles(wanted));
    lemma_distinct_roles(wanted);
    assert(wanted[old_roles.len() as int] == x);
    assert(wanted.contains(x));
    lemma_occurs_once(nr, x);
    assert forall|e: Seq<char>| old_roles.contains(e) implies #[trigger] nr.contains(e) by {
        let k = choose|k: int| 0 <= k < old_roles.len() && old_roles[k] == e;
        assert(wanted[k] == e);
        assert(wanted.contains(e));
    }
}

} // verus!
