use vstd::prelude::*;

use crate::HnswM;
use crate::graph::{
    Candidate, lemma_shape_eq_trans, links_wf, links_shape_eq, list_ok, search_layer,
    select_diverse, set_links_checked, try_add_link,
};
use crate::vectors::GpuVectorStorage;

verus! {

/// The per-point scoring capability handed into one insertion: the staged
/// vectors, the scoring mode, and the query point the scorer was built for.
pub struct FilteredScorer<'a> {
    pub store: &'a GpuVectorStorage,
    pub exact: bool,
    pub query_id: u32,
}

impl<'a> FilteredScorer<'a> {
    pub open spec fn wf(self) -> bool {
        &&& self.store.wf()
        &&& self.query_id < self.store.spec_len()
    }

    pub fn new(store: &'a GpuVectorStorage, exact: bool, query_id: u32) -> (r: Self)
        requires
            store.wf(),
            query_id < store.spec_len(),
        ensures
            r.wf(),
            r.store == store,
            r.exact == exact,
            r.query_id == query_id,
    {
        FilteredScorer { store, exact, query_id }
    }
}

/// The multi-layer proximity graph under construction: per-level bounded
/// adjacency lists, entry points, and the per-point search-eligibility marks.
pub struct GraphLayersBuilder {
    hnsw_m: HnswM,
    ef_construct: usize,
    links_layers: Vec<Vec<Vec<u32>>>,
    ready_list: Vec<bool>,
    entry_points: Vec<u32>,
    entry_points_num: usize,
}

impl GraphLayersBuilder {
    pub closed spec fn spec_links(self) -> Seq<Vec<Vec<u32>>> {
        self.links_layers@
    }

    pub closed spec fn spec_hnsw_m(self) -> HnswM {
        self.hnsw_m
    }

    pub closed spec fn spec_ef_construct(self) -> usize {
        self.ef_construct
    }

    pub closed spec fn spec_ready(self) -> Seq<bool> {
        self.ready_list@
    }

    pub closed spec fn spec_entry_points(self) -> Seq<u32> {
        self.entry_points@
    }

    pub open spec fn spec_num_points(self) -> nat {
        self.spec_links().len()
    }

    /// The assigned maximum level of a point: one less than its list count.
    pub open spec fn spec_level_of(self, p: int) -> int {
        self.spec_links()[p]@.len() - 1
    }

    /// Some entry point has an assigned level of at least `lvl`.
    pub open spec fn has_entry_at_least(self, lvl: int) -> bool {
        exists|k: int|
            0 <= k < self.spec_entry_points().len() && self.spec_level_of(
                (#[trigger] self.spec_entry_points()[k]) as int,
            ) >= lvl
    }

    pub open spec fn wf(self) -> bool {
        &&& links_wf(self.spec_links(), self.spec_hnsw_m())
        &&& forall|p: int| 0 <= p < self.spec_num_points() ==> (#[trigger] self.spec_links()[p])@.len() >= 1
        &&& self.spec_ready().len() == self.spec_num_points()
        &&& forall|e: int|
            0 <= e < self.spec_entry_points().len() ==> #[trigger] self.spec_entry_points()[e]
                < self.spec_num_points()
    }

    pub fn hnsw_m(&self) -> (r: HnswM)
        ensures
            r == self.spec_hnsw_m(),
    {
        self.hnsw_m
    }

    pub fn ef_construct(&self) -> (r: usize)
        ensures
            r == self.spec_ef_construct(),
    {
        self.ef_construct
    }

    pub fn links_layers(&self) -> (r: &Vec<Vec<Vec<u32>>>)
        ensures
            r@ == self.spec_links(),
    {
        &self.links_layers
    }

    pub fn ready_list(&self) -> (r: &Vec<bool>)
        ensures
            r@ == self.spec_ready(),
    {
        &self.ready_list
    }

    pub fn num_points(&self) -> (r: usize)
        ensures
            r == self.spec_num_points(),
    {
        self.links_layers.len()
    }

    pub fn get_point_level(&self, point_id: u32) -> (r: usize)
        requires
            self.wf(),
            point_id < self.spec_num_points(),
        ensures
            r == self.spec_level_of(point_id as int),
    {
        self.links_layers[point_id as usize].len() - 1
    }

    pub fn entry_points_count(&self) -> (r: usize)
        ensures
            r == self.spec_entry_points().len(),
    {
        self.entry_points.len()
    }

    /// The entry points, for search over the finished graph.
    pub fn entry_points(&self) -> (r: &Vec<u32>)
        ensures
            r@ == self.spec_entry_points(),
    {
        &self.entry_points
    }

    /// Mark every point as search-eligible: the accelerated phase assumes the
    /// whole point set is visible to search even before its links exist.
    pub fn fill_ready_list(&mut self)
        requires
            old(self).wf(),
        ensures
            final(self).wf(),
            final(self).spec_links() == old(self).spec_links(),
            final(self).spec_hnsw_m() == old(self).spec_hnsw_m(),
            final(self).spec_ef_construct() == old(self).spec_ef_construct(),
            final(self).spec_entry_points() == old(self).spec_entry_points(),
            final(self).spec_ready().len() == old(self).spec_ready().len(),
            forall|p: int|
                0 <= p < final(self).spec_ready().len() ==> #[trigger] final(self).spec_ready()[p],
    {
        let n: usize = self.ready_list.len();
        let mut i: usize = 0;
        while i < n
            invariant
                i <= n,
                n == self.ready_list@.len(),
                self.links_layers@ == old(self).spec_links(),
                self.hnsw_m == old(self).spec_hnsw_m(),
                self.ef_construct == old(self).spec_ef_construct(),
                self.entry_points@ == old(self).spec_entry_points(),
                forall|p: int| 0 <= p < i ==> #[trigger] self.ready_list@[p],
            decreases n - i,
        {
            self.ready_list.set(i, true);
            i += 1;
        }
    }

    /// Mark one point as search-eligible.
    fn set_ready(&mut self, point_id: u32)
        requires
            old(self).wf(),
            point_id < old(self).spec_num_points(),
        ensures
            final(self).wf(),
            final(self).spec_links() == old(self).spec_links(),
            final(self).spec_hnsw_m() == old(self).spec_hnsw_m(),
            final(self).spec_ef_construct() == old(self).spec_ef_construct(),
            final(self).spec_entry_points() == old(self).spec_entry_points(),
            final(self).spec_ready() == old(self).spec_ready().update(point_id as int, true),
    {
        self.ready_list.set(point_id as usize, true);
        proof {
            assert(self.links_layers@ == old(self).links_layers@);
            assert(self.ready_list@.len() == old(self).ready_list@.len());
            assert forall|e2: int|
                0 <= e2 < self.spec_entry_points().len() implies #[trigger] self.spec_entry_points()[e2]
                < self.spec_num_points() by {
                assert(self.spec_entry_points()[e2] == old(self).spec_entry_points()[e2]);
                assert(old(self).spec_entry_points()[e2] < old(self).spec_num_points());
            }
        }
    }

    /// Overwrite the list of one point at one level; entries that would break
    /// well-formedness are dropped.  Used when the accelerated phase hands a
    /// level's computed adjacency back.
    pub fn set_level_links(&mut self, point_id: u32, level: usize, list: &Vec<u32>)
        requires
            old(self).wf(),
            point_id < old(self).spec_num_points(),
            level < old(self).spec_links()[point_id as int]@.len(),
        ensures
            final(self).wf(),
            links_shape_eq(final(self).spec_links(), old(self).spec_links()),
            final(self).spec_hnsw_m() == old(self).spec_hnsw_m(),
            final(self).spec_ef_construct() == old(self).spec_ef_construct(),
            final(self).spec_entry_points() == old(self).spec_entry_points(),
            final(self).spec_ready() == old(self).spec_ready(),
            forall|q: int|
                0 <= q < old(self).spec_num_points() && q != point_id ==> #[trigger] final(self).spec_links()[q] == old(self).spec_links()[q],
            forall|l: int|
                0 <= l < old(self).spec_links()[point_id as int]@.len() && l != level
                    ==> (#[trigger] final(self).spec_links()[point_id as int]@[l])@ == (old(self).spec_links()[point_id as int]@[l])@,
            list_ok(list@, old(self).spec_links(), old(self).spec_hnsw_m(), point_id as int, level as int)
                ==> (final(self).spec_links()[point_id as int]@[level as int])@ == list@,
    {
        let ghost pre = self.links_layers@;
        set_links_checked(&mut self.links_layers, self.hnsw_m, point_id, level, list);
        proof {
            assert forall|q: int|
                0 <= q < self.links_layers@.len() implies (#[trigger] self.links_layers@[q])@.len()
                >= 1 by {
                assert(self.links_layers@[q]@.len() == pre[q]@.len());
            }
            assert(self.links_layers@.len() == pre.len());
            assert forall|e2: int|
                0 <= e2 < self.spec_entry_points().len() implies #[trigger] self.spec_entry_points()[e2]
                < self.spec_num_points() by {
                assert(self.spec_entry_points()[e2] == old(self).spec_entry_points()[e2]);
                assert(old(self).spec_entry_points()[e2] < old(self).spec_num_points());
            }
            assert(self.spec_ready().len() == self.spec_num_points());
        }
    }

    /// Insert one point with the sequential greedy algorithm: search top-down
    /// from the entry points, keep an `ef`-sized frontier per level, select
    /// diverse neighbors, and add bidirectional edges with capacity eviction.
    pub fn link_new_point(&mut self, point_id: u32, points_scorer: FilteredScorer<'_>)
        requires
            old(self).wf(),
            points_scorer.wf(),
            points_scorer.store.spec_len() == old(self).spec_num_points(),
            points_scorer.query_id == point_id,
            point_id < old(self).spec_num_points(),
        ensures
            final(self).wf(),
            links_shape_eq(final(self).spec_links(), old(self).spec_links()),
            final(self).spec_hnsw_m() == old(self).spec_hnsw_m(),
            final(self).spec_ef_construct() == old(self).spec_ef_construct(),
            final(self).spec_num_points() == old(self).spec_num_points(),
            final(self).spec_entry_points().len() >= 1,
            final(self).spec_ready() == old(self).spec_ready().update(point_id as int, true),
            final(self).has_entry_at_least(old(self).spec_level_of(point_id as int)),
            forall|lvl: int|
                #[trigger] old(self).has_entry_at_least(lvl) ==> final(self).has_entry_at_least(
                    lvl,
                ),
    {
        let n: usize = self.links_layers.len();
        let level: usize = self.links_layers[point_id as usize].len() - 1;
        if self.entry_points.len() == 0 {
            self.entry_points.push(point_id);
            proof {
                assert(self.spec_entry_points()[0] == point_id);
                assert(self.has_entry_at_least(self.spec_level_of(point_id as int)));
            }
            let ghost mid = *self;
            self.set_ready(point_id);
            proof {
                lemma_entry_at_least_preserved(
                    mid,
                    *self,
                    old(self).spec_level_of(point_id as int),
                );
                assert forall|lvl: int|
                    #[trigger] old(self).has_entry_at_least(lvl) implies self.has_entry_at_least(
                    lvl,
                ) by {
                    let k0 = choose|k: int|
                        0 <= k < old(self).spec_entry_points().len() && old(self).spec_level_of(
                            (#[trigger] old(self).spec_entry_points()[k]) as int,
                        ) >= lvl;
                    assert(false);
                }
            }
            return ;
        }
        // entry point with the highest level
        let mut e: u32 = self.entry_points[0];
        let mut t: usize = 1;
        while t < self.entry_points.len()
            invariant
                self.wf(),
                e < self.spec_num_points(),
                t <= self.spec_entry_points().len(),
            decreases self.spec_entry_points().len() - t,
        {
            let c = self.entry_points[t];
            if self.links_layers[c as usize].len() > self.links_layers[e as usize].len() {
                e = c;
            }
            t += 1;
        }
        let e_level: usize = self.links_layers[e as usize].len() - 1;
        // zoom down through the levels above the point's level with a frontier of one
        let mut l: usize = e_level;
        while l > level
            invariant
                self.wf(),
                self.links_layers@ == old(self).spec_links(),
                self.hnsw_m == old(self).spec_hnsw_m(),
                points_scorer.wf(),
                points_scorer.store.spec_len() == self.spec_num_points(),
                point_id < self.spec_num_points(),
                e < self.spec_num_points(),
                l < self.spec_links()[e as int]@.len(),
                n == self.spec_num_points(),
            decreases l,
        {
            let cands = search_layer(
                &self.links_layers,
                &self.ready_list,
                points_scorer.store,
                points_scorer.exact,
                self.hnsw_m,
                point_id,
                e,
                l,
                1,
            );
            if cands.len() > 0 {
                let c = cands[0];
                if l <= self.links_layers[c.id as usize].len() && c.id != point_id {
                    e = c.id;
                }
            }
            l -= 1;
        }
        // link the point at every level from its own level down to zero
        let top: usize = if level < e_level {
            level
        } else {
            e_level
        };
        let mut l2: usize = top + 1;
        while l2 > 0
            invariant
                l2 <= top + 1,
                top <= level,
                self.wf(),
                links_shape_eq(self.spec_links(), old(self).spec_links()),
                self.hnsw_m == old(self).spec_hnsw_m(),
                self.ef_construct == old(self).spec_ef_construct(),
                self.ready_list@ == old(self).spec_ready(),
                self.entry_points@ == old(self).spec_entry_points(),
                points_scorer.wf(),
                points_scorer.store.spec_len() == self.spec_num_points(),
                point_id < self.spec_num_points(),
                e < self.spec_num_points(),
                n == self.spec_num_points(),
            decreases l2,
        {
            let lev: usize = l2 - 1;
            let mut cands: Vec<Candidate> = Vec::new();
            if lev < self.links_layers[e as usize].len() {
                cands = search_layer(
                    &self.links_layers,
                    &self.ready_list,
                    points_scorer.store,
                    points_scorer.exact,
                    self.hnsw_m,
                    point_id,
                    e,
                    lev,
                    self.ef_construct,
                );
            }
            let m: usize = self.hnsw_m.level_m(lev);
            let neighbors = select_diverse(
                points_scorer.store,
                points_scorer.exact,
                point_id,
                &cands,
                m,
            );
            let ghost head_self = *self;
            let ghost pre1 = self.links_layers@;
            if lev < self.links_layers[point_id as usize].len() {
                set_links_checked(&mut self.links_layers, self.hnsw_m, point_id, lev, &neighbors);
            }
            proof {
                lemma_shape_eq_trans(self.links_layers@, pre1, old(self).spec_links());
                assert forall|p: int|
                    0 <= p < self.links_layers@.len() implies (#[trigger] self.links_layers@[p])@.len()
                    >= 1 by {
                    assert(self.links_layers@[p]@.len() == pre1[p]@.len());
                    assert(head_self.spec_links()[p]@.len() >= 1);
                }
                assert forall|e2: int|
                    0 <= e2 < self.entry_points@.len() implies #[trigger] self.entry_points@[e2]
                    < self.links_layers@.len() by {
                    assert(head_self.spec_entry_points()[e2] < head_self.spec_num_points());
                    assert(self.entry_points@[e2] == head_self.spec_entry_points()[e2]);
                    assert(self.links_layers@.len() == pre1.len());
                }
            }
            let mut t2: usize = 0;
            while t2 < neighbors.len()
                invariant
                    t2 <= neighbors@.len(),
                    links_wf(self.links_layers@, self.hnsw_m),
                    links_shape_eq(self.links_layers@, old(self).spec_links()),
                    forall|p: int|
                        0 <= p < self.links_layers@.len() ==> (#[trigger] self.links_layers@[p])@.len() >= 1,
                    self.ready_list@ == old(self).spec_ready(),
                    self.entry_points@ == old(self).spec_entry_points(),
                    forall|e2: int|
                        0 <= e2 < self.entry_points@.len() ==> #[trigger] self.entry_points@[e2]
                            < self.links_layers@.len(),
                    self.hnsw_m == old(self).spec_hnsw_m(),
                    self.ef_construct == old(self).spec_ef_construct(),
                    points_scorer.wf(),
                    points_scorer.store.spec_len() == self.links_layers@.len(),
                    point_id < self.links_layers@.len(),
                    n == self.links_layers@.len(),
                decreases neighbors@.len() - t2,
            {
                let nb = neighbors[t2];
                let ghost pre2 = self.links_layers@;
                if (nb as usize) < n && lev < self.links_layers[nb as usize].len() {
                    try_add_link(
                        &mut self.links_layers,
                        points_scorer.store,
                        points_scorer.exact,
                        self.hnsw_m,
                        nb,
                        point_id,
                        lev,
                    );
                }
                proof {
                    lemma_shape_eq_trans(self.links_layers@, pre2, old(self).spec_links());
                    assert forall|p: int|
                        0 <= p < self.links_layers@.len() implies (#[trigger] self.links_layers@[p])@.len()
                        >= 1 by {
                        assert(self.links_layers@[p]@.len() == pre2[p]@.len());
                        assert(pre2[p]@.len() >= 1);
                    }
                    assert forall|e2: int|
                        0 <= e2 < self.entry_points@.len() implies #[trigger] self.entry_points@[e2]
                        < self.links_layers@.len() by {
                        assert(self.entry_points@[e2] < pre2.len());
                        assert(self.links_layers@.len() == pre2.len());
                    }
                }
                t2 += 1;
            }
            if cands.len() > 0 {
                let c = cands[0];
                if (c.id as usize) < n && c.id != point_id {
                    e = c.id;
                }
            }
            l2 = lev;
        }
        // register the point as an entry point if there is room, else replace
        // the lowest-level entry when this point reaches higher
        let ghost pre_eps = self.entry_points@;
        proof {
            assert(level == old(self).spec_level_of(point_id as int));
            assert(self.spec_links()[point_id as int]@.len() == old(self).spec_links()[point_id as int]@.len());
            assert(self.spec_level_of(point_id as int) == level);
        }
        if self.entry_points.len() < self.entry_points_num {
            self.entry_points.push(point_id);
            proof {
                assert forall|e2: int|
                    0 <= e2 < self.entry_points@.len() implies #[trigger] self.entry_points@[e2]
                    < self.spec_num_points() by {
                    if e2 < pre_eps.len() {
                        assert(self.entry_points@[e2] == pre_eps[e2]);
                    }
                }
                assert(self.spec_entry_points()[pre_eps.len() as int] == point_id);
                assert(self.has_entry_at_least(level as int));
                assert forall|lvl: int|
                    #[trigger] old(self).has_entry_at_least(lvl) implies self.has_entry_at_least(
                    lvl,
                ) by {
                    let k0 = choose|k: int|
                        0 <= k < old(self).spec_entry_points().len() && old(self).spec_level_of(
                            (#[trigger] old(self).spec_entry_points()[k]) as int,
                        ) >= lvl;
                    let id0 = old(self).spec_entry_points()[k0];
                    assert(id0 < old(self).spec_num_points());
                    assert(self.spec_entry_points()[k0] == pre_eps[k0]);
                    assert(self.spec_links()[id0 as int]@.len() == old(self).spec_links()[id0 as int]@.len());
                    assert(self.spec_level_of((self.spec_entry_points()[k0]) as int) >= lvl);
                }
            }
        } else if self.entry_points.len() > 0 {
            let mut low: usize = 0;
            let mut t3: usize = 1;
            while t3 < self.entry_points.len()
                invariant
                    t3 <= self.entry_points@.len(),
                    low < self.entry_points@.len(),
                    point_id < self.spec_num_points(),
                    self.wf(),
                decreases self.entry_points@.len() - t3,
            {
                let a = self.entry_points[t3];
                let b = self.entry_points[low];
                proof {
                    assert(a == self.spec_entry_points()[t3 as int]);
                    assert(self.spec_entry_points()[t3 as int] < self.spec_num_points());
                    assert(b == self.spec_entry_points()[low as int]);
                    assert(self.spec_entry_points()[low as int] < self.spec_num_points());
                }
                if self.links_layers[a as usize].len() < self.links_layers[b as usize].len() {
                    low = t3;
                }
                t3 += 1;
            }
            let lid = self.entry_points[low];
            proof {
                assert(lid == self.spec_entry_points()[low as int]);
                assert(lid < self.spec_num_points());
            }
            if self.links_layers[lid as usize].len() < level + 1 {
                let ghost eps2 = self.entry_points@;
                self.entry_points.set(low, point_id);
                proof {
                    assert forall|e2: int|
                        0 <= e2 < self.entry_points@.len() implies #[trigger] self.entry_points@[e2]
                        < self.spec_num_points() by {
                        if e2 != low {
                            assert(self.entry_points@[e2] == eps2[e2]);
                        }
                    }
                    assert(self.spec_entry_points()[low as int] == point_id);
                    assert(self.has_entry_at_least(level as int));
                    assert forall|lvl: int|
                        #[trigger] old(self).has_entry_at_least(lvl) implies self.has_entry_at_least(
                        lvl,
                    ) by {
                        let k0 = choose|k: int|
                            0 <= k < old(self).spec_entry_points().len() && old(self).spec_level_of(
                                (#[trigger] old(self).spec_entry_points()[k]) as int,
                            ) >= lvl;
                        let id0 = old(self).spec_entry_points()[k0];
                        assert(id0 < old(self).spec_num_points());
                        if k0 != low {
                            assert(self.spec_entry_points()[k0] == eps2[k0]);
                            assert(eps2[k0] == old(self).spec_entry_points()[k0]);
                            assert(self.spec_links()[id0 as int]@.len() == old(self).spec_links()[id0 as int]@.len());
                            assert(self.spec_level_of((self.spec_entry_points()[k0]) as int)
                                >= lvl);
                        } else {
                            assert(id0 == lid);
                            assert(self.spec_links()[lid as int]@.len() == old(self).spec_links()[lid as int]@.len());
                            assert(self.spec_level_of(lid as int) >= lvl);
                            assert(level as int >= self.spec_level_of(lid as int) + 1);
                            assert(self.spec_level_of((self.spec_entry_points()[low as int]) as int)
                                >= lvl);
                        }
                    }
                }
            } else {
                proof {
                    assert(self.spec_level_of(lid as int) >= level);
                    assert(self.has_entry_at_least(level as int));
                    assert forall|lvl: int|
                        #[trigger] old(self).has_entry_at_least(lvl) implies self.has_entry_at_least(
                        lvl,
                    ) by {
                        let k0 = choose|k: int|
                            0 <= k < old(self).spec_entry_points().len() && old(self).spec_level_of(
                                (#[trigger] old(self).spec_entry_points()[k]) as int,
                            ) >= lvl;
                        let id0 = old(self).spec_entry_points()[k0];
                        assert(id0 < old(self).spec_num_points());
                        assert(self.spec_entry_points()[k0] == old(self).spec_entry_points()[k0]);
                        assert(self.spec_links()[id0 as int]@.len() == old(self).spec_links()[id0 as int]@.len());
                        assert(self.spec_level_of((self.spec_entry_points()[k0]) as int) >= lvl);
                    }
                }
            }
        }
        let ghost mid = *self;
        self.set_ready(point_id);
        proof {
            assert(mid.has_entry_at_least(level as int));
            lemma_entry_at_least_preserved(mid, *self, level as int);
            assert forall|lvl: int|
                #[trigger] old(self).has_entry_at_least(lvl) implies self.has_entry_at_least(
                lvl,
            ) by {
                assert(mid.has_entry_at_least(lvl));
                lemma_entry_at_least_preserved(mid, *self, lvl);
            }
        }
    }
}

/// An entry that reaches a level survives any change that keeps the entry
/// set and the per-point level count.
pub proof fn lemma_entry_at_least_preserved(a: GraphLayersBuilder, b: GraphLayersBuilder, lvl: int)
    requires
        a.has_entry_at_least(lvl),
        b.spec_entry_points() == a.spec_entry_points(),
        links_shape_eq(b.spec_links(), a.spec_links()),
        forall|e: int|
            0 <= e < a.spec_entry_points().len() ==> #[trigger] a.spec_entry_points()[e]
                < a.spec_num_points(),
    ensures
        b.has_entry_at_least(lvl),
{
    let k0 = choose|k: int|
        0 <= k < a.spec_entry_points().len() && a.spec_level_of(
            (#[trigger] a.spec_entry_points()[k]) as int,
        ) >= lvl;
    let id = a.spec_entry_points()[k0];
    assert(b.spec_entry_points()[k0] == id);
    assert(b.spec_links()[id as int]@.len() == a.spec_links()[id as int]@.len());
    assert(b.spec_level_of(id as int) >= lvl);
}

/// Law: an entry point that reaches at least level `lc - 1` reaches the
/// level of every point whose level is below `lc` — the entry-point set is
/// non-empty at the top level.
pub proof fn lemma_entries_cover_ids(g: GraphLayersBuilder, ids: Seq<u32>, lc: int)
    requires
        g.has_entry_at_least(lc - 1),
        forall|j: int| 0 <= j < ids.len() ==> g.spec_level_of((#[trigger] ids[j]) as int) < lc,
    ensures
        forall|j: int|
            0 <= j < ids.len() ==> g.has_entry_at_least(g.spec_level_of((#[trigger] ids[j]) as int)),
{
    let k0 = choose|k: int|
        0 <= k < g.spec_entry_points().len() && g.spec_level_of(
            (#[trigger] g.spec_entry_points()[k]) as int,
        ) >= lc - 1;
    assert forall|j: int|
        0 <= j < ids.len() implies g.has_entry_at_least(g.spec_level_of(
        (#[trigger] ids[j]) as int,
    )) by {
        assert(g.spec_level_of((g.spec_entry_points()[k0]) as int) >= lc - 1);
        assert(g.spec_level_of(ids[j] as int) <= lc - 1);
    }
}

/// Law: in every well-formed builder — in particular every completed build —
/// each point's neighbor count at level 0 is at most `m0` and at every higher
/// level at most `m`, and no point links to itself.
pub proof fn lemma_neighbor_bounds(g: GraphLayersBuilder)
    requires
        g.wf(),
    ensures
        forall|p: int, l: int|
            #![trigger g.spec_links()[p]@[l]]
            0 <= p < g.spec_num_points() && 0 <= l < g.spec_links()[p]@.len()
                ==> g.spec_links()[p]@[l]@.len() <= if l == 0 {
                g.spec_hnsw_m().m0
            } else {
                g.spec_hnsw_m().m
            },
        forall|p: int, l: int, k: int|
            #![trigger g.spec_links()[p]@[l]@[k]]
            0 <= p < g.spec_num_points() && 0 <= l < g.spec_links()[p]@.len() && 0 <= k
                < g.spec_links()[p]@[l]@.len() ==> g.spec_links()[p]@[l]@[k] != p,
{
    assert forall|p: int, l: int|
        #![trigger g.spec_links()[p]@[l]]
        0 <= p < g.spec_num_points() && 0 <= l < g.spec_links()[p]@.len()
            implies g.spec_links()[p]@[l]@.len() <= if l == 0 {
            g.spec_hnsw_m().m0
        } else {
            g.spec_hnsw_m().m
        } by {
        assert(g.spec_links()[p]@[l]@.len() <= g.spec_hnsw_m().spec_level_m(l as nat));
    }
}

/// Allocate an empty builder sized for the target point count, with the
/// assigned level of each point.
pub fn create_graph_layers_builder(
    levels: &Vec<usize>,
    hnsw_m: HnswM,
    ef_construct: usize,
    entry_points_num: usize,
) -> (r: GraphLayersBuilder)
    requires
        forall|p: int| 0 <= p < levels@.len() ==> #[trigger] levels@[p] < usize::MAX,
        entry_points_num >= 1,
    ensures
        r.wf(),
        r.spec_num_points() == levels@.len(),
        r.spec_hnsw_m() == hnsw_m,
        r.spec_ef_construct() == ef_construct,
        r.spec_entry_points().len() == 0,
        forall|p: int| 0 <= p < levels@.len() ==> #[trigger] r.spec_level_of(p) == levels@[p],
        forall|p: int, l: int|
            #![trigger r.spec_links()[p]@[l]]
            0 <= p < levels@.len() && 0 <= l < r.spec_links()[p]@.len()
                ==> r.spec_links()[p]@[l]@.len() == 0,
        forall|p: int|
            0 <= p < levels@.len() ==> !(#[trigger] r.spec_ready()[p]),
{
    let n: usize = levels.len();
    let mut links_layers: Vec<Vec<Vec<u32>>> = Vec::new();
    let mut ready_list: Vec<bool> = Vec::new();
    let mut p: usize = 0;
    while p < n
        invariant
            p <= n,
            n == levels@.len(),
            links_layers@.len() == p,
            ready_list@.len() == p,
            forall|q: int| 0 <= q < p ==> !(#[trigger] ready_list@[q]),
            forall|q: int|
                0 <= q < p ==> (#[trigger] links_layers@[q])@.len() == levels@[q] + 1,
            forall|q: int, l: int|
                #![trigger links_layers@[q]@[l]]
                0 <= q < p && 0 <= l < links_layers@[q]@.len() ==> links_layers@[q]@[l]@.len()
                    == 0,
            forall|q: int| 0 <= q < levels@.len() ==> #[trigger] levels@[q] < usize::MAX,
        decreases n - p,
    {
        let lv: usize = levels[p];
        let mut row: Vec<Vec<u32>> = Vec::new();
        let mut l: usize = 0;
        while l < lv + 1
            invariant
                l <= lv + 1,
                lv < usize::MAX,
                row@.len() == l,
                forall|t: int| 0 <= t < l ==> (#[trigger] row@[t])@.len() == 0,
            decreases lv + 1 - l,
        {
            row.push(Vec::new());
            l += 1;
        }
        links_layers.push(row);
        ready_list.push(false);
        p += 1;
    }
    GraphLayersBuilder {
        hnsw_m,
        ef_construct,
        links_layers,
        ready_list,
        entry_points: Vec::new(),
        entry_points_num,
    }
}

} // verus!
