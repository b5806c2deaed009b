//! The cross-shard read path: results gathered from every shard are joined
//! and cut into pages.
use vstd::prelude::*;

verus! {

/// One page of a result set.
#[derive(Debug, Clone)]
pub struct PagedResponse<T> {
    pub page: usize,
    pub limit: usize,
    pub total: usize,
    pub number_of_pages: usize,
    pub data: Vec<T>,
}

/// How many pages of `limit` items hold `total` items (none for an empty limit).
pub open spec fn page_count(total: int, limit: int) -> int {
    if limit > 0 {
        (total + limit - 1) / limit
    } else {
        0
    }
}

/// The items of page `page` (counted from zero): positions `page * limit` up to
/// `page * limit + limit`, cut at the end.
pub open spec fn page_of<T>(items: Seq<T>, limit: int, page: int) -> Seq<T> {
    let start = page * limit;
    if start >= items.len() {
        Seq::empty()
    } else if start + limit >= items.len() {
        items.subrange(start, items.len() as int)
    } else {
        items.subrange(start, start + limit)
    }
}

/// The results of every shard, one after another.
pub fn concat_shards<T>(per_shard: Vec<Vec<T>>) -> (r: Vec<T>)
    ensures
        r@ == per_shard@.map_values(|v: Vec<T>| v@).flatten(),
{
    let ghost parts = per_shard@.map_values(|v: Vec<T>| v@);
    let mut rest = per_shard;
    let mut out: Vec<T> = Vec::new();
    let mut i: usize = 0;
    let n = rest.len();
    assert(parts.subrange(0, 0) =~= Seq::<Seq<T>>::empty());
    while rest.len() > 0
        invariant
            rest@.len() + i == n,
            n == parts.len(),
            forall|j: int| 0 <= j < rest@.len() ==> (#[trigger] rest@[j])@ == parts[i + j],
            out@ == parts.subrange(0, i as int).flatten(),
        decreases rest@.len(),
    {
        let mut v = rest.remove(0);
        assert(v@ == parts[i as int]);
        let ghost before = out@;
        out.append(&mut v);
        proof {
            assert(parts.subrange(0, i as int + 1).drop_last() =~= parts.subrange(0, i as int));
            parts.subrange(0, i as int + 1).lemma_flatten_and_flatten_alt_are_equivalent();
            parts.subrange(0, i as int).lemma_flatten_and_flatten_alt_are_equivalent();
            assert(parts.subrange(0, i as int + 1).flatten_alt() == parts.subrange(0, i as int).flatten_alt() + parts[i as int]);
        }
        i = i + 1;
    }
    assert(parts.subrange(0, n as int) =~= parts);
    out
}

/// Page `page` (counted from zero) of `limit` items out of `data`.
pub fn paginate<T>(data: Vec<T>, limit: usize, page: usize) -> (r: PagedResponse<T>)
    ensures
        r.page == page,
        r.limit == limit,
        r.total == data@.len(),
        r.number_of_pages == page_count(data@.len() as int, limit as int),
        r.data@ == page_of(data@, limit as int, page as int),
{
    let total = data.len();
    let number_of_pages: usize = if limit == 0 {
        0
    } else {
        let q = total / limit;
        if total % limit == 0 {
            assert(q as int == (total as int + limit as int - 1) / (limit as int)) by (nonlinear_arith)
                requires
                    limit > 0,
                    q as int == total as int / limit as int,
                    total as int % limit as int == 0,
            ;
            q
        } else {
            assert(q < total) by (nonlinear_arith)
                requires
                    limit >= 2,
                    q == total / limit,
                    total % limit != 0,
            ;
            assert(q as int + 1 == (total as int + limit as int - 1) / (limit as int)) by (nonlinear_arith)
                requires
                    limit > 0,
                    q as int == total as int / limit as int,
                    total as int % limit as int != 0,
            ;
            q + 1
        }
    };
    let past_end = page != 0 && limit > total / page;
    if past_end || limit == 0 {
        proof {
            if past_end {
                assert(page as int * limit as int > total as int) by (nonlinear_arith)
                    requires
                        page > 0,
                        limit as int > total as int / page as int,
                ;
            }
        }
        let empty: Vec<T> = Vec::new();
        assert(empty@ =~= page_of(data@, limit as int, page as int));
        return PagedResponse { page, limit, total, number_of_pages, data: empty };
    }
    let start: usize = if page == 0 {
        assert(0 == page as int * limit as int) by (nonlinear_arith)
            requires
                page == 0,
        ;
        0
    } else {
        assert(page as int * limit as int <= total as int) by (nonlinear_arith)
            requires
                page > 0,
                limit as int <= total as int / page as int,
        ;
        page * limit
    };
    assert(start as int == page as int * limit as int);
    let ghost all = data@;
    let mut data = data;
    let mut tail = data.split_off(start);
    if tail.len() > limit {
        tail.truncate(limit);
    }
    proof {
        let pg = page_of(all, limit as int, page as int);
        if start as int + limit as int >= all.len() {
            assert(tail@ =~= all.subrange(start as int, all.len() as int));
        } else {
            assert(tail@ =~= all.subrange(start as int, start as int + limit as int));
        }
        assert(tail@ =~= pg);
    }
    PagedResponse { page, limit, total, number_of_pages, data: tail }
}

} // verus!
