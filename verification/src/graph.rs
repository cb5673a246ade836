use vstd::prelude::*;

use crate::HnswM;
use crate::vectors::GpuVectorStorage;

verus! {

/// A candidate seen during greedy search: its score and its id.
#[derive(Debug, Clone, Copy, PartialEq, Eq, Structural)]
pub struct Candidate {
    pub score: u64,
    pub id: u32,
}

/// A fresh copy of one neighbor list.
pub(crate) fn copy_list(v: &Vec<u32>) -> (r: Vec<u32>)
    ensures
        r@ == v@,
{
    let mut out: Vec<u32> = Vec::new();
    let mut i: usize = 0;
    while i < v.len()
        invariant
            i <= v@.len(),
            out@ =~= v@.subrange(0, i as int),
        decreases v@.len() - i,
    {
        out.push(v[i]);
        i += 1;
    }
    assert(out@ =~= v@);
    out
}

/// Well-formed adjacency state: one list per (point, level up to the point's
/// assigned level); every list bounded by `level_m`, free of self-loops, and
/// pointing only at points that exist on that level.
pub open spec fn links_wf(links: Seq<Vec<Vec<u32>>>, hm: HnswM) -> bool {
    &&& forall|p: int, l: int|
        #![trigger links[p]@[l]]
        0 <= p < links.len() && 0 <= l < links[p]@.len() ==> links[p]@[l]@.len()
            <= hm.spec_level_m(l as nat)
    &&& forall|p: int, l: int, k: int|
        #![trigger links[p]@[l]@[k]]
        0 <= p < links.len() && 0 <= l < links[p]@.len() && 0 <= k < links[p]@[l]@.len() ==> {
            &&& links[p]@[l]@[k] != p
            &&& links[p]@[l]@[k] < links.len()
            &&& links[links[p]@[l]@[k] as int]@.len() > l
        }
}

/// The two adjacency states have the same shape: one entry per point, with
/// the same per-point level count.
pub open spec fn links_shape_eq(a: Seq<Vec<Vec<u32>>>, b: Seq<Vec<Vec<u32>>>) -> bool {
    &&& a.len() == b.len()
    &&& forall|p: int| 0 <= p < a.len() ==> (#[trigger] a[p])@.len() == b[p]@.len()
}

/// The two adjacency states hold the same lists: equal point count, equal
/// per-point level count, and equal neighbor lists throughout.
pub open spec fn links_eq3(a: Seq<Vec<Vec<u32>>>, b: Seq<Vec<Vec<u32>>>) -> bool {
    &&& a.len() == b.len()
    &&& forall|p: int| 0 <= p < a.len() ==> (#[trigger] a[p])@.len() == b[p]@.len()
    &&& forall|p: int, l: int|
        #![trigger a[p]@[l]]
        0 <= p < a.len() && 0 <= l < a[p]@.len() ==> (a[p]@[l])@ == (b[p]@[l])@
}

/// The two adjacency states agree everywhere except possibly at one level:
/// same shape, and equal lists at every other level.
pub open spec fn links_eq_off_level(
    a: Seq<Vec<Vec<u32>>>,
    b: Seq<Vec<Vec<u32>>>,
    level: int,
) -> bool {
    &&& links_shape_eq(a, b)
    &&& forall|q: int, l: int|
        #![trigger a[q]@[l]]
        0 <= q < a.len() && 0 <= l < a[q]@.len() && l != level ==> (a[q]@[l])@ == (b[q]@[l])@
}

/// Off-level agreement follows from a single-point, single-level update.
pub proof fn lemma_off_level_from_point_update(
    a: Seq<Vec<Vec<u32>>>,
    b: Seq<Vec<Vec<u32>>>,
    p: int,
    level: int,
)
    requires
        links_shape_eq(a, b),
        forall|q: int| 0 <= q < b.len() && q != p ==> #[trigger] a[q] == b[q],
        forall|l: int|
            0 <= l < b[p]@.len() && l != level ==> (#[trigger] a[p]@[l])@ == (b[p]@[l])@,
    ensures
        links_eq_off_level(a, b, level),
{
    assert forall|q: int, l: int|
        #![trigger a[q]@[l]]
        0 <= q < a.len() && 0 <= l < a[q]@.len() && l != level implies (a[q]@[l])@
        == (b[q]@[l])@ by {
        if q != p {
            assert(a[q] == b[q]);
        } else {
            assert(a[p]@.len() == b[p]@.len());
        }
    }
}

/// Off-level agreement chains across successive single-level updates.
pub proof fn lemma_off_level_trans(
    a: Seq<Vec<Vec<u32>>>,
    b: Seq<Vec<Vec<u32>>>,
    c: Seq<Vec<Vec<u32>>>,
    level: int,
)
    requires
        links_eq_off_level(a, b, level),
        links_eq_off_level(b, c, level),
    ensures
        links_eq_off_level(a, c, level),
{
    lemma_shape_eq_trans(a, b, c);
    assert forall|q: int, l: int|
        #![trigger a[q]@[l]]
        0 <= q < a.len() && 0 <= l < a[q]@.len() && l != level implies (a[q]@[l])@
        == (c[q]@[l])@ by {
        assert(a[q]@.len() == b[q]@.len());
        assert((a[q]@[l])@ == (b[q]@[l])@);
        assert((b[q]@[l])@ == (c[q]@[l])@);
    }
}

/// Shape equality chains across successive link updates.
pub proof fn lemma_shape_eq_trans(a: Seq<Vec<Vec<u32>>>, b: Seq<Vec<Vec<u32>>>, c: Seq<Vec<Vec<u32>>>)
    requires
        links_shape_eq(a, b),
        links_shape_eq(b, c),
    ensures
        links_shape_eq(a, c),
{
    assert forall|p: int| 0 <= p < a.len() implies (#[trigger] a[p])@.len() == c[p]@.len() by {
        assert(a[p]@.len() == b[p]@.len());
        assert(b[p]@.len() == c[p]@.len());
    }
}

/// All the candidate ids are distinct from `query`, in range, and present on
/// `level`.
pub open spec fn candidates_ok(
    cands: Seq<Candidate>,
    links: Seq<Vec<Vec<u32>>>,
    query: u32,
    level: int,
) -> bool {
    forall|i: int|
        0 <= i < cands.len() ==> {
            &&& (#[trigger] cands[i]).id != query
            &&& cands[i].id < links.len()
            &&& links[cands[i].id as int]@.len() > level
        }
}

/// The list is a valid replacement for the list of `p` at `level`: within
/// the level bound, no self-loop, every entry an existing point on `level`.
pub open spec fn list_ok(
    list: Seq<u32>,
    links: Seq<Vec<Vec<u32>>>,
    hm: HnswM,
    p: int,
    level: int,
) -> bool {
    &&& list.len() <= hm.spec_level_m(level as nat)
    &&& forall|k: int|
        0 <= k < list.len() ==> #[trigger] list[k] != p && list[k] < links.len()
            && links[list[k] as int]@.len() > level
}

/// Replace the list of `p` at `level` after validating every entry at run
/// time, so that well-formedness is kept unconditionally; entries that would
/// break it are dropped, and the list is truncated to the level bound.  A
/// list that is already valid is stored exactly as given.
pub(crate) fn set_links_checked(
    links: &mut Vec<Vec<Vec<u32>>>,
    hm: HnswM,
    p: u32,
    level: usize,
    list: &Vec<u32>,
)
    requires
        links_wf(old(links)@, hm),
        p < old(links)@.len(),
        level < old(links)@[p as int]@.len(),
    ensures
        links_wf(final(links)@, hm),
        links_shape_eq(final(links)@, old(links)@),
        forall|q: int|
            0 <= q < old(links)@.len() && q != p ==> #[trigger] final(links)@[q] == old(links)@[q],
        forall|l: int|
            0 <= l < old(links)@[p as int]@.len() && l != level ==> (#[trigger] final(links)@[p as int]@[l])@ == old(links)@[p as int]@[l]@,
        list_ok(list@, old(links)@, hm, p as int, level as int) ==> (final(links)@[p as int]@[level as int])@
            == list@,
{
    let n: usize = links.len();
    let m: usize = hm.level_m(level);
    let mut checked: Vec<u32> = Vec::new();
    let mut i: usize = 0;
    while i < list.len()
        invariant
            i <= list@.len(),
            checked@.len() <= i,
            checked@.len() <= m,
            m == hm.spec_level_m(level as nat),
            n == links@.len(),
            links_wf(links@, hm),
            forall|k: int|
                0 <= k < checked@.len() ==> {
                    &&& #[trigger] checked@[k] != p
                    &&& checked@[k] < n
                    &&& links@[checked@[k] as int]@.len() > level
                },
            list_ok(list@, links@, hm, p as int, level as int) ==> checked@ =~= list@.subrange(
                0,
                i as int,
            ),
        decreases list@.len() - i,
    {
        let c = list[i];
        proof {
            if list_ok(list@, links@, hm, p as int, level as int) {
                assert(list@[i as int] != p && list@[i as int] < links@.len()
                    && links@[list@[i as int] as int]@.len() > level);
                assert(checked@.len() == i && i < list@.len() <= m);
            }
        }
        if checked.len() < m && c != p && (c as usize) < n && level < links[c as usize].len() {
            checked.push(c);
        }
        i += 1;
    }
    proof {
        if list_ok(list@, links@, hm, p as int, level as int) {
            assert(checked@ =~= list@);
        }
    }
    let ghost pre = links@;
    let mut new_row: Vec<Vec<u32>> = Vec::new();
    let row_len: usize = links[p as usize].len();
    let mut l: usize = 0;
    while l < row_len
        invariant
            l <= row_len,
            p < links@.len(),
            row_len == links@[p as int]@.len(),
            level < row_len,
            new_row@.len() == l,
            forall|t: int|
                0 <= t < l && t != level ==> (#[trigger] new_row@[t])@ == links@[p as int]@[t]@,
            l > level ==> new_row@[level as int]@ == checked@,
        decreases row_len - l,
    {
        if l == level {
            new_row.push(copy_list(&checked));
        } else {
            let row = &links[p as usize];
            new_row.push(copy_list(&row[l]));
        }
        l += 1;
    }
    links.set(p as usize, new_row);
    proof {
        assert(links@[p as int]@[level as int]@ == checked@);
        assert forall|t: int|
            0 <= t < links@[p as int]@.len() && t != level implies (#[trigger] links@[p as int]@[t])@
            == pre[p as int]@[t]@ by {}
        assert(links@[p as int]@[level as int]@ == checked@);
        assert forall|q: int|
            0 <= q < links@.len() implies (#[trigger] links@[q])@.len() == pre[q]@.len() by {
            if q != p {
                assert(links@[q] == pre[q]);
            }
        }
        assert forall|q: int, l: int|
            #![trigger links@[q]@[l]]
            0 <= q < links@.len() && 0 <= l < links@[q]@.len() implies links@[q]@[l]@.len()
            <= hm.spec_level_m(l as nat) by {
            if q != p {
                assert(links@[q] == pre[q]);
            } else if l != level {
                assert(links@[q]@[l]@ == pre[q]@[l]@);
            }
        }
        assert forall|q: int, l: int, k: int|
            #![trigger links@[q]@[l]@[k]]
            0 <= q < links@.len() && 0 <= l < links@[q]@.len() && 0 <= k
                < links@[q]@[l]@.len() implies {
            &&& links@[q]@[l]@[k] != q
            &&& links@[q]@[l]@[k] < links@.len()
            &&& links@[links@[q]@[l]@[k] as int]@.len() > l
        } by {
            if q == p && l == level {
                assert(links@[q]@[l]@[k] == checked@[k]);
                assert(links@[checked@[k] as int]@.len() == pre[checked@[k] as int]@.len());
            } else {
                if q != p {
                    assert(links@[q] == pre[q]);
                    assert(links@[q]@[l]@[k] == pre[q]@[l]@[k]);
                } else {
                    assert(links@[q]@[l]@ == pre[q]@[l]@);
                    assert(links@[q]@[l]@[k] == pre[q]@[l]@[k]);
                }
                let c = pre[q]@[l]@[k];
                assert(c != q && c < pre.len() && pre[c as int]@.len() > l);
                assert(links@[c as int]@.len() == pre[c as int]@.len());
            }
        }
    }
}

/// Order candidates by score, then id: a fixed, deterministic tie-break.
fn sort_candidates(store: &GpuVectorStorage, pool: &Vec<Candidate>) -> (r: Vec<Candidate>)
    requires
        store.wf(),
        forall|i: int| 0 <= i < pool@.len() ==> (#[trigger] pool@[i]).id < store.spec_len(),
    ensures
        forall|i: int| 0 <= i < r@.len() ==> (#[trigger] r@[i]).id < store.spec_len(),
{
    let mut taken: Vec<bool> = Vec::new();
    let mut k: usize = 0;
    while k < pool.len()
        invariant
            taken@.len() == k,
            k <= pool@.len(),
        decreases pool@.len() - k,
    {
        taken.push(false);
        k += 1;
    }
    let mut out: Vec<Candidate> = Vec::new();
    let mut round: usize = 0;
    while round < pool.len()
        invariant
            round <= pool@.len(),
            taken@.len() == pool@.len(),
            store.wf(),
            forall|i: int| 0 <= i < pool@.len() ==> (#[trigger] pool@[i]).id < store.spec_len(),
            forall|i: int| 0 <= i < out@.len() ==> (#[trigger] out@[i]).id < store.spec_len(),
        decreases pool@.len() - round,
    {
        let mut best: usize = 0;
        let mut found: bool = false;
        let mut k2: usize = 0;
        while k2 < pool.len()
            invariant
                k2 <= pool@.len(),
                taken@.len() == pool@.len(),
                found ==> best < pool@.len(),
            decreases pool@.len() - k2,
        {
            if !taken[k2] {
                if !found || pool[k2].score < pool[best].score || (pool[k2].score
                    == pool[best].score && pool[k2].id < pool[best].id) {
                    best = k2;
                    found = true;
                }
            }
            k2 += 1;
        }
        if !found {
            break ;
        }
        taken.set(best, true);
        out.push(pool[best]);
        round += 1;
    }
    out
}

/// Connect `b` into the list of `a` at `level`: when `a` has room, `b` is
/// appended; at capacity, the diversity-aware selection is re-run over the
/// current neighbors together with `b`, so the same pruning rule decides
/// which edge leaves.
pub(crate) fn try_add_link(
    links: &mut Vec<Vec<Vec<u32>>>,
    store: &GpuVectorStorage,
    exact: bool,
    hm: HnswM,
    a: u32,
    b: u32,
    level: usize,
)
    requires
        links_wf(old(links)@, hm),
        store.wf(),
        old(links)@.len() <= store.spec_len(),
        a < old(links)@.len(),
        level < old(links)@[a as int]@.len(),
        b < old(links)@.len(),
    ensures
        links_wf(final(links)@, hm),
        links_shape_eq(final(links)@, old(links)@),
        forall|q: int|
            0 <= q < old(links)@.len() && q != a ==> #[trigger] final(links)@[q] == old(links)@[q],
        forall|l: int|
            0 <= l < old(links)@[a as int]@.len() && l != level ==> (#[trigger] final(links)@[a as int]@[l])@ == old(links)@[a as int]@[l]@,
{
    let m: usize = hm.level_m(level);
    let row = &links[a as usize];
    let cur = &row[level];
    if cur.len() < m {
        let mut list: Vec<u32> = Vec::new();
        let mut i: usize = 0;
        while i < cur.len()
            invariant
                i <= cur@.len(),
                list@.len() == i,
            decreases cur@.len() - i,
        {
            list.push(cur[i]);
            i += 1;
        }
        list.push(b);
        set_links_checked(links, hm, a, level, &list);
        return ;
    }
    // at capacity: re-select diverse neighbors over the current ones plus `b`
    let mut pool: Vec<Candidate> = Vec::new();
    if b != a {
        pool.push(Candidate { score: store.score(exact, a, b), id: b });
    }
    let mut i: usize = 0;
    while i < cur.len()
        invariant
            i <= cur@.len(),
            cur@ == links@[a as int]@[level as int]@,
            a < links@.len() && (level as int) < links@[a as int]@.len(),
            links_wf(links@, hm),
            links@.len() <= store.spec_len(),
            store.wf(),
            a < store.spec_len(),
            b < store.spec_len(),
            forall|t: int| 0 <= t < pool@.len() ==> (#[trigger] pool@[t]).id < store.spec_len(),
        decreases cur@.len() - i,
    {
        let c = cur[i];
        if c != b {
            pool.push(Candidate { score: store.score(exact, a, c), id: c });
        }
        i += 1;
    }
    let sorted = sort_candidates(store, &pool);
    let kept = select_diverse(store, exact, a, &sorted, m);
    set_links_checked(links, hm, a, level, &kept);
}

/// Greedy best-first search across one level: repeatedly expand the closest
/// unexpanded candidate, and return all visited candidates sorted by score
/// then id (a fixed, deterministic tie-break), truncated to `ef`.
pub(crate) fn search_layer(
    links: &Vec<Vec<Vec<u32>>>,
    ready: &Vec<bool>,
    store: &GpuVectorStorage,
    exact: bool,
    hm: HnswM,
    query: u32,
    entry: u32,
    level: usize,
    ef: usize,
) -> (r: Vec<Candidate>)
    requires
        links_wf(links@, hm),
        store.wf(),
        links@.len() <= store.spec_len(),
        ready@.len() == links@.len(),
        query < links@.len(),
        entry < links@.len(),
        level < links@[entry as int]@.len(),
    ensures
        candidates_ok(r@, links@, query, level as int),
        r@.len() <= ef,
{
    let n: usize = links.len();
    let mut visited: Vec<bool> = Vec::new();
    let mut i: usize = 0;
    while i < n
        invariant
            visited@.len() == i,
            i <= n,
        decreases n - i,
    {
        visited.push(false);
        i += 1;
    }
    let mut pool: Vec<Candidate> = Vec::new();
    let mut expanded: Vec<bool> = Vec::new();
    visited.set(query as usize, true);
    if entry != query {
        pool.push(Candidate { score: store.score(exact, query, entry), id: entry });
        expanded.push(false);
        visited.set(entry as usize, true);
    }
    let mut fuel: usize = n;
    while fuel > 0
        invariant
            n == links@.len() && n <= store.spec_len() && n == ready@.len(),
            links_wf(links@, hm),
            store.wf(),
            query < n,
            visited@.len() == n,
            expanded@.len() == pool@.len(),
            candidates_ok(pool@, links@, query, level as int),
        decreases fuel,
    {
        fuel -= 1;
        // closest unexpanded candidate
        let mut best: usize = 0;
        let mut found: bool = false;
        let mut k: usize = 0;
        while k < pool.len()
            invariant
                k <= pool@.len(),
                expanded@.len() == pool@.len(),
                found ==> best < pool@.len(),
            decreases pool@.len() - k,
        {
            if !expanded[k] {
                if !found || pool[k].score < pool[best].score || (pool[k].score
                    == pool[best].score && pool[k].id < pool[best].id) {
                    best = k;
                    found = true;
                }
            }
            k += 1;
        }
        if !found {
            break ;
        }
        // stop once the closest frontier candidate cannot improve the ef-th best
        if ef > 0 && count_better(&pool, pool[best].score, pool[best].id) >= ef {
            break ;
        }
        expanded.set(best, true);
        let c = pool[best];
        let row = &links[c.id as usize];
        let neigh = &row[level];
        let mut t: usize = 0;
        while t < neigh.len()
            invariant
                t <= neigh@.len(),
                neigh@ == links@[c.id as int]@[level as int]@,
                c.id < n && (level as int) < links@[c.id as int]@.len(),
                n == links@.len() && n <= store.spec_len() && n == ready@.len(),
                links_wf(links@, hm),
                store.wf(),
                query < n,
                visited@.len() == n,
                expanded@.len() == pool@.len(),
                candidates_ok(pool@, links@, query, level as int),
            decreases neigh@.len() - t,
        {
            let nb = neigh[t];
            if !visited[nb as usize] {
                visited.set(nb as usize, true);
                if ready[nb as usize] && nb != query {
                    pool.push(Candidate { score: store.score(exact, query, nb), id: nb });
                    expanded.push(false);
                }
            }
            t += 1;
        }
    }
    // select the ef closest, deterministically ordered
    let mut out: Vec<Candidate> = Vec::new();
    let mut taken: Vec<bool> = Vec::new();
    let mut k: usize = 0;
    while k < pool.len()
        invariant
            taken@.len() == k,
            k <= pool@.len(),
        decreases pool@.len() - k,
    {
        taken.push(false);
        k += 1;
    }
    let mut round: usize = 0;
    while round < ef
        invariant
            round <= ef,
            out@.len() <= round,
            taken@.len() == pool@.len(),
            candidates_ok(pool@, links@, query, level as int),
            candidates_ok(out@, links@, query, level as int),
        decreases ef - round,
    {
        let mut best: usize = 0;
        let mut found: bool = false;
        let mut k2: usize = 0;
        while k2 < pool.len()
            invariant
                k2 <= pool@.len(),
                taken@.len() == pool@.len(),
                found ==> best < pool@.len(),
            decreases pool@.len() - k2,
        {
            if !taken[k2] {
                if !found || pool[k2].score < pool[best].score || (pool[k2].score
                    == pool[best].score && pool[k2].id < pool[best].id) {
                    best = k2;
                    found = true;
                }
            }
            k2 += 1;
        }
        if !found {
            break ;
        }
        taken.set(best, true);
        out.push(pool[best]);
        round += 1;
    }
    out
}

/// How many pool entries beat the pair `(score, id)` in the fixed order.
fn count_better(pool: &Vec<Candidate>, score: u64, id: u32) -> (r: usize)
    ensures
        r <= pool@.len(),
{
    let mut count: usize = 0;
    let mut k: usize = 0;
    while k < pool.len()
        invariant
            k <= pool@.len(),
            count <= k,
        decreases pool@.len() - k,
    {
        if pool[k].score < score || (pool[k].score == score && pool[k].id < id) {
            count += 1;
        }
        k += 1;
    }
    count
}

/// Every selected id comes from the candidate list.
pub open spec fn ids_from_candidates(r: Seq<u32>, cands: Seq<Candidate>) -> bool {
    forall|k: int|
        0 <= k < r.len() ==> exists|i: int| 0 <= i < cands.len() && #[trigger] r[k] == cands[i].id
}

/// Diversity-aware neighbor selection: walk the candidates from closest to
/// farthest and keep one only if no already-kept neighbor is closer to it
/// than the query is; remaining room is then filled with the closest pruned
/// candidates, up to `m` neighbors.  Kept identical between the sequential
/// and the accelerated path, so both prune the same way.
pub(crate) fn select_diverse(
    store: &GpuVectorStorage,
    exact: bool,
    query: u32,
    cands: &Vec<Candidate>,
    m: usize,
) -> (r: Vec<u32>)
    requires
        store.wf(),
        query < store.spec_len(),
        forall|i: int| 0 <= i < cands@.len() ==> (#[trigger] cands@[i]).id < store.spec_len(),
    ensures
        r@.len() <= m,
        forall|k: int| 0 <= k < r@.len() ==> #[trigger] r@[k] < store.spec_len(),
        ids_from_candidates(r@, cands@),
{
    let mut kept: Vec<u32> = Vec::new();
    let mut i: usize = 0;
    while i < cands.len()
        invariant
            i <= cands@.len(),
            kept@.len() <= m,
            store.wf(),
            query < store.spec_len(),
            forall|t: int| 0 <= t < cands@.len() ==> (#[trigger] cands@[t]).id < store.spec_len(),
            forall|t: int| 0 <= t < kept@.len() ==> #[trigger] kept@[t] < store.spec_len(),
            ids_from_candidates(kept@, cands@),
        decreases cands@.len() - i,
    {
        if kept.len() >= m {
            break ;
        }
        let c = cands[i];
        let dist_q = c.score;
        let mut dominated: bool = false;
        let mut k: usize = 0;
        while k < kept.len()
            invariant
                k <= kept@.len(),
                store.wf(),
                c.id < store.spec_len(),
                forall|t: int| 0 <= t < kept@.len() ==> #[trigger] kept@[t] < store.spec_len(),
            decreases kept@.len() - k,
        {
            let s = store.score(exact, c.id, kept[k]);
            if s < dist_q {
                dominated = true;
            }
            k += 1;
        }
        if !dominated {
            let ghost pre_kept = kept@;
            kept.push(c.id);
            proof {
                assert forall|k2: int|
                    0 <= k2 < kept@.len() implies exists|t: int|
                    0 <= t < cands@.len() && #[trigger] kept@[k2] == cands@[t].id by {
                    if k2 < pre_kept.len() {
                        assert(kept@[k2] == pre_kept[k2]);
                        let t0 = choose|t: int|
                            0 <= t < cands@.len() && pre_kept[k2] == cands@[t].id;
                        assert(kept@[k2] == cands@[t0].id);
                    } else {
                        assert(kept@[k2] == cands@[i as int].id);
                    }
                }
                assert(ids_from_candidates(kept@, cands@));
            }
        }
        i += 1;
    }
    // fill the remaining room with the closest pruned candidates
    let mut i2: usize = 0;
    while i2 < cands.len()
        invariant
            i2 <= cands@.len(),
            kept@.len() <= m,
            store.wf(),
            forall|t: int| 0 <= t < cands@.len() ==> (#[trigger] cands@[t]).id < store.spec_len(),
            forall|t: int| 0 <= t < kept@.len() ==> #[trigger] kept@[t] < store.spec_len(),
            ids_from_candidates(kept@, cands@),
        decreases cands@.len() - i2,
    {
        if kept.len() >= m {
            break ;
        }
        let c = cands[i2];
        let mut present: bool = false;
        let mut k2: usize = 0;
        while k2 < kept.len()
            invariant
                k2 <= kept@.len(),
            decreases kept@.len() - k2,
        {
            if kept[k2] == c.id {
                present = true;
            }
            k2 += 1;
        }
        if !present {
            let ghost pre_kept = kept@;
            kept.push(c.id);
            proof {
                assert forall|k3: int|
                    0 <= k3 < kept@.len() implies exists|t: int|
                    0 <= t < cands@.len() && #[trigger] kept@[k3] == cands@[t].id by {
                    if k3 < pre_kept.len() {
                        assert(kept@[k3] == pre_kept[k3]);
                        let t0 = choose|t: int|
                            0 <= t < cands@.len() && pre_kept[k3] == cands@[t].id;
                        assert(kept@[k3] == cands@[t0].id);
                    } else {
                        assert(kept@[k3] == cands@[i2 as int].id);
                    }
                }
                assert(ids_from_candidates(kept@, cands@));
            }
        }
        i2 += 1;
    }
    kept
}

} // verus!
