use vstd::prelude::*;

verus! {

/// One point to insert: its dense id and its assigned maximum level.
#[derive(Debug, Clone, Copy, PartialEq, Eq, Structural)]
pub struct PointEntry {
    pub point_id: u32,
    pub level: usize,
}

/// A bounded group of consecutive points (indices into the sorted point
/// order) processed as one parallel unit of work; all share one level.
#[derive(Debug, Clone, Copy, PartialEq, Eq, Structural)]
pub struct Batch {
    pub start: usize,
    pub end: usize,
    pub level: usize,
}

/// The batches cover exactly the first `upto` sorted points, consecutively,
/// each batch non-empty, level-uniform and no larger than `groups`.
pub open spec fn batches_cover(
    batches: Seq<Batch>,
    points: Seq<PointEntry>,
    upto: int,
    groups: int,
) -> bool {
    &&& (batches.len() == 0 ==> upto == 0)
    &&& (batches.len() > 0 ==> batches[0].start == 0 && batches[batches.len() - 1].end == upto)
    &&& forall|b: int|
        0 <= b < batches.len() ==> (#[trigger] batches[b]).start < batches[b].end <= upto
            && batches[b].end - batches[b].start <= groups
    &&& forall|b: int|
        0 <= b < batches.len() - 1 ==> (#[trigger] batches[b]).end == batches[b + 1].start
    &&& forall|b: int, i: int|
        #![trigger batches[b], points[i]]
        0 <= b < batches.len() && batches[b].start <= i < batches[b].end ==> points[i].level
            == batches[b].level
}

/// One past the last point index any batch covers.
pub open spec fn batches_end(batches: Seq<Batch>) -> int {
    if batches.len() == 0 {
        0
    } else {
        batches[batches.len() - 1].end as int
    }
}

/// Each collected point is one of the given pairs, witnessed by `w`.
pub open spec fn points_witnessed(
    points: Seq<PointEntry>,
    ids: Seq<u32>,
    levels: Seq<usize>,
    w: Seq<int>,
) -> bool {
    &&& w.len() == points.len()
    &&& forall|k: int|
        0 <= k < points.len() ==> 0 <= #[trigger] w[k] < ids.len() && points[k].point_id
            == ids[w[k]] && points[k].level == levels[w[k]]
}

/// Points of one level keep the input order: their witnesses ascend.  With
/// the levels sorted, this also makes the witness assignment injective — no
/// input pair is used twice.
pub open spec fn within_level_ordered(points: Seq<PointEntry>, w: Seq<int>) -> bool {
    forall|k1: int, k2: int|
        #![trigger w[k1], w[k2]]
        0 <= k1 < k2 < points.len() && points[k1].level == points[k2].level ==> w[k1] < w[k2]
}

/// Every given pair appears among the collected points, witnessed by `cov`.
pub open spec fn covers_witnessed(
    points: Seq<PointEntry>,
    ids: Seq<u32>,
    levels: Seq<usize>,
    cov: Seq<int>,
) -> bool {
    &&& cov.len() == ids.len()
    &&& forall|j: int|
        #![trigger cov[j]]
        0 <= j < ids.len() ==> 0 <= cov[j] < points.len() && points[cov[j]].point_id == ids[j]
            && points[cov[j]].level == levels[j]
}

/// Append, in insertion order, every given point whose assigned level is
/// exactly `cur`, extending the ghost witness records: `r.0[k]` is the source
/// index of collected point `k`, and `r.1[j]` is where source `j` of level
/// `cur` was appended (elsewhere it keeps the value of `cov_in`).
#[verifier::spinoff_prover]
#[verifier::rlimit(100)]
fn collect_level(
    points: &mut Vec<PointEntry>,
    ids: &Vec<u32>,
    levels: &Vec<usize>,
    cur: usize,
    wit_in: Ghost<Seq<int>>,
    cov_in: Ghost<Seq<int>>,
) -> (r: Ghost<(Seq<int>, Seq<int>)>)
    requires
        ids@.len() == levels@.len(),
        points_witnessed(old(points)@, ids@, levels@, wit_in@),
        cov_in@.len() == ids@.len(),
    ensures
        final(points)@.len() >= old(points)@.len(),
        forall|k: int|
            0 <= k < old(points)@.len() ==> #[trigger] final(points)@[k] == old(points)@[k],
        forall|k: int|
            old(points)@.len() <= k < final(points)@.len() ==> (#[trigger] final(points)@[k]).level
                == cur,
        points_witnessed(final(points)@, ids@, levels@, r@.0),
        forall|k: int| 0 <= k < old(points)@.len() ==> #[trigger] r@.0[k] == wit_in@[k],
        forall|k1: int, k2: int|
            #![trigger r@.0[k1], r@.0[k2]]
            old(points)@.len() <= k1 < k2 < final(points)@.len() ==> r@.0[k1] < r@.0[k2],
        r@.1.len() == ids@.len(),
        forall|j: int|
            #![trigger levels@[j]]
            0 <= j < ids@.len() && levels@[j] == cur ==> old(points)@.len() <= r@.1[j]
                < final(points)@.len() && final(points)@[r@.1[j]].point_id == ids@[j]
                && final(points)@[r@.1[j]].level == levels@[j],
        forall|j: int|
            #![trigger levels@[j]]
            0 <= j < ids@.len() && levels@[j] != cur ==> r@.1[j] == cov_in@[j],
{
    let n: usize = ids.len();
    let ghost mut w: Seq<int> = wit_in@;
    let ghost mut c: Seq<int> = cov_in@;
    let mut j: usize = 0;
    while j < n
        invariant
            j <= n,
            n == ids@.len() && n == levels@.len(),
            old(points)@.len() <= points@.len(),
            forall|k: int| 0 <= k < old(points)@.len() ==> #[trigger] points@[k] == old(points)@[k],
            forall|k: int|
                old(points)@.len() <= k < points@.len() ==> (#[trigger] points@[k]).level == cur,
            points_witnessed(points@, ids@, levels@, w),
            forall|k: int| 0 <= k < old(points)@.len() ==> #[trigger] w[k] == wit_in@[k],
            forall|k: int|
                old(points)@.len() <= k < points@.len() ==> #[trigger] w[k] < j,
            forall|k1: int, k2: int|
                #![trigger w[k1], w[k2]]
                old(points)@.len() <= k1 < k2 < points@.len() ==> w[k1] < w[k2],
            c.len() == n && cov_in@.len() == n,
            forall|j2: int|
                #![trigger levels@[j2]]
                0 <= j2 < j && levels@[j2] == cur ==> old(points)@.len() <= c[j2] < points@.len()
                    && points@[c[j2]].point_id == ids@[j2] && points@[c[j2]].level == levels@[j2],
            forall|j2: int| j <= j2 < n ==> #[trigger] c[j2] == cov_in@[j2],
            forall|j2: int|
                #![trigger levels@[j2]]
                0 <= j2 < j && levels@[j2] != cur ==> c[j2] == cov_in@[j2],
        decreases n - j,
    {
        let ghost pre = points@;
        let ghost pre_w = w;
        let ghost pre_c = c;
        if levels[j] == cur {
            let entry = PointEntry { point_id: ids[j], level: cur };
            points.push(entry);
            proof {
                let pre_w2 = w;
                w = w.push(j as int);
                c = c.update(j as int, pre.len() as int);
                assert forall|k1: int, k2: int|
                    #![trigger w[k1], w[k2]]
                    old(points)@.len() <= k1 < k2 < points@.len() implies w[k1] < w[k2] by {
                    if k2 < pre.len() {
                        assert(w[k1] == pre_w2[k1] && w[k2] == pre_w2[k2]);
                    } else {
                        assert(w[k2] == j as int);
                        assert(w[k1] == pre_w2[k1]);
                        assert(pre_w2[k1] < j);
                    }
                }
                assert forall|k: int| 0 <= k < pre.len() implies #[trigger] points@[k]
                    == pre[k] by {
                    assert(points@ == pre.push(entry));
                }
                assert(points@[pre.len() as int] == entry);
                assert forall|k: int|
                    0 <= k < points@.len() implies 0 <= #[trigger] w[k] < n && points@[k].point_id
                    == ids@[w[k]] && points@[k].level == levels@[w[k]] by {
                    if k < pre.len() {
                        assert(w[k] == pre_w[k]);
                        assert(points@[k] == pre[k]);
                    } else {
                        assert(w[k] == j as int);
                    }
                }
                assert forall|j2: int|
                    #![trigger levels@[j2]]
                    0 <= j2 < j + 1 && levels@[j2] == cur implies old(points)@.len() <= c[j2]
                    < points@.len() && points@[c[j2]].point_id == ids@[j2] && points@[c[j2]].level
                    == levels@[j2] by {
                    if j2 == j {
                        assert(c[j2] == pre.len());
                        assert(points@[c[j2]] == entry);
                    } else {
                        assert(c[j2] == pre_c[j2]);
                        assert(old(points)@.len() <= pre_c[j2] < pre.len());
                        assert(points@[c[j2]] == pre[c[j2]]);
                    }
                }
                assert forall|j2: int| j + 1 <= j2 < n implies #[trigger] c[j2]
                    == cov_in@[j2] by {
                    assert(c[j2] == pre_c[j2]);
                }
                assert forall|j2: int|
                    #![trigger levels@[j2]]
                    0 <= j2 < j + 1 && levels@[j2] != cur implies c[j2] == cov_in@[j2] by {
                    assert(j2 != j as int);
                    assert(c[j2] == pre_c[j2]);
                    if j2 < j {
                        assert(pre_c[j2] == cov_in@[j2]);
                    }
                }
            }
        }
        j += 1;
    }
    Ghost((w, c))
}

/// Chunk the points from `start` onward, all of level `cur`, into consecutive
/// batches of at most `groups_count` points each.
fn chunk_batches(
    batches: &mut Vec<Batch>,
    points: &Vec<PointEntry>,
    start: usize,
    cur: usize,
    groups_count: usize,
)
    requires
        groups_count >= 1,
        start as int == batches_end(old(batches)@),
        start <= points@.len(),
        batches_cover(old(batches)@, points@, start as int, groups_count as int),
        forall|k: int| start <= k < points@.len() ==> (#[trigger] points@[k]).level == cur,
    ensures
        batches_cover(final(batches)@, points@, points@.len() as int, groups_count as int),
{
    let mut s: usize = start;
    while s < points.len()
        invariant
            start <= s <= points@.len(),
            groups_count >= 1,
            batches_cover(batches@, points@, s as int, groups_count as int),
            forall|k: int| s <= k < points@.len() ==> (#[trigger] points@[k]).level == cur,
        decreases points@.len() - s,
    {
        let room: usize = points.len() - s;
        let size: usize = if room < groups_count {
            room
        } else {
            groups_count
        };
        let b = Batch { start: s, end: s + size, level: cur };
        batches.push(b);
        s = s + size;
    }
}


/// Sort the points by level, highest first (insertion order within a level),
/// and chunk them into level-uniform batches, with ghost witnesses pairing
/// the produced order with the given pairs in both directions.
#[verifier::spinoff_prover]
#[verifier::rlimit(100)]
fn sort_points(
    ids: &Vec<u32>,
    levels: &Vec<usize>,
    groups_count: usize,
    levels_count: usize,
    max_level: usize,
) -> (r: (Vec<PointEntry>, Vec<Batch>, Ghost<(Seq<int>, Seq<int>)>))
    requires
        ids@.len() == levels@.len(),
        groups_count >= 1,
        ids@.len() > 0 ==> levels_count == max_level + 1,
        ids@.len() == 0 ==> levels_count == 0,
        forall|t: int| 0 <= t < levels@.len() ==> #[trigger] levels@[t] <= max_level,
        ids@.len() > 0 ==> exists|t: int|
            0 <= t < levels@.len() && #[trigger] levels@[t] == max_level,
    ensures
        forall|k: int|
            0 <= k < r.0@.len() ==> (#[trigger] r.0@[k]).level < levels_count,
        forall|k1: int, k2: int|
            #![trigger r.0@[k1], r.0@[k2]]
            0 <= k1 <= k2 < r.0@.len() ==> r.0@[k1].level >= r.0@[k2].level,
        points_witnessed(r.0@, ids@, levels@, r.2@.0),
        within_level_ordered(r.0@, r.2@.0),
        covers_witnessed(r.0@, ids@, levels@, r.2@.1),
        batches_cover(r.1@, r.0@, r.0@.len() as int, groups_count as int),
        r.0@.len() == 0 ==> levels_count == 0,
        r.0@.len() > 0 ==> r.0@[0].level == levels_count - 1,
{
    let n: usize = ids.len();
        let mut points: Vec<PointEntry> = Vec::new();
        let mut batches: Vec<Batch> = Vec::new();
        let ghost mut wit_all: Seq<int> = Seq::empty();
        let ghost mut cov_all: Seq<int> = Seq::new(n as nat, |x: int| 0);
        let mut l: usize = levels_count;
        while l > 0
            invariant
                l <= levels_count,
                n == ids@.len() && n == levels@.len(),
                groups_count >= 1,
                n > 0 ==> levels_count == max_level + 1,
                n > 0 ==> exists|t: int| 0 <= t < n && #[trigger] levels@[t] == max_level,
                n == 0 ==> levels_count == 0,
                forall|t: int| 0 <= t < n ==> #[trigger] levels@[t] <= max_level,
                forall|k: int|
                    0 <= k < points@.len() ==> l <= (#[trigger] points@[k]).level < levels_count,
                forall|k1: int, k2: int|
                    #![trigger points@[k1], points@[k2]]
                    0 <= k1 <= k2 < points@.len() ==> points@[k1].level >= points@[k2].level,
                points_witnessed(points@, ids@, levels@, wit_all),
                within_level_ordered(points@, wit_all),
                cov_all.len() == n,
                forall|j2: int|
                    #![trigger levels@[j2]]
                    0 <= j2 < n && levels@[j2] >= l ==> 0 <= cov_all[j2] < points@.len()
                        && points@[cov_all[j2]].point_id == ids@[j2]
                        && points@[cov_all[j2]].level == levels@[j2],
                batches_cover(batches@, points@, points@.len() as int, groups_count as int),
                points@.len() == 0 ==> l == levels_count,
                points@.len() > 0 ==> points@[0].level == levels_count - 1,
            decreases l,
        {
            let cur: usize = l - 1;
            let ghost pre = points@;
            let ghost pre_cov = cov_all;
            let ghost pre_wit = wit_all;
            let wc = collect_level(&mut points, ids, levels, cur, Ghost(wit_all), Ghost(cov_all));
            proof {
                wit_all = wc@.0;
                cov_all = wc@.1;
                assert forall|k: int|
                    0 <= k < points@.len() implies cur <= (#[trigger] points@[k]).level
                    < levels_count by {
                    if k < pre.len() {
                        assert(points@[k] == pre[k]);
                    }
                }
                assert forall|k1: int, k2: int|
                    #![trigger wit_all[k1], wit_all[k2]]
                    0 <= k1 < k2 < points@.len() && points@[k1].level
                        == points@[k2].level implies wit_all[k1] < wit_all[k2] by {
                    if k2 < pre.len() {
                        assert(points@[k1] == pre[k1] && points@[k2] == pre[k2]);
                        assert(wit_all[k1] == pre_wit[k1] && wit_all[k2] == pre_wit[k2]);
                    } else if k1 >= pre.len() {
                    } else {
                        assert(points@[k1] == pre[k1]);
                        assert(pre[k1].level >= l);
                        assert(points@[k2].level == cur);
                    }
                }
                assert forall|k1: int, k2: int|
                    #![trigger points@[k1], points@[k2]]
                    0 <= k1 <= k2 < points@.len() implies points@[k1].level
                    >= points@[k2].level by {
                    if k1 < pre.len() {
                        assert(points@[k1] == pre[k1]);
                    }
                    if k2 < pre.len() {
                        assert(points@[k2] == pre[k2]);
                    }
                }
                assert forall|j2: int|
                    #![trigger levels@[j2]]
                    0 <= j2 < n && levels@[j2] >= cur implies 0 <= cov_all[j2] < points@.len()
                    && points@[cov_all[j2]].point_id == ids@[j2] && points@[cov_all[j2]].level
                    == levels@[j2] by {
                    if levels@[j2] >= l {
                        assert(cov_all[j2] == pre_cov[j2]);
                        assert(0 <= pre_cov[j2] < pre.len());
                        assert(points@[pre_cov[j2]] == pre[pre_cov[j2]]);
                    }
                }
            }
            let s: usize = if batches.len() == 0 {
                0
            } else {
                let last = batches.len() - 1;
                batches[last].end
            };
            proof {
                if batches@.len() > 0 {
                    assert(batches@[batches@.len() - 1].end == pre.len());
                }
                assert(s as int == pre.len());
                assert(batches_cover(batches@, points@, s as int, groups_count as int)) by {
                    assert forall|b: int, i: int|
                        #![trigger batches@[b], points@[i]]
                        0 <= b < batches@.len() && batches@[b].start <= i
                            < batches@[b].end implies points@[i].level == batches@[b].level by {
                        assert(points@[i] == pre[i]);
                    }
                }
            }
            chunk_batches(&mut batches, &points, s, cur, groups_count);
            proof {
                if n > 0 {
                    let t = choose|t: int| 0 <= t < n && levels@[t] == max_level;
                    assert(levels@[t] >= cur);
                    assert(0 <= cov_all[t] < points@.len());
                    assert(points@.len() > 0);
                }
                if points@.len() > 0 {
                    if pre.len() > 0 {
                        assert(points@[0] == pre[0]);
                    } else {
                        assert(l == levels_count);
                        assert(points@[0].level == cur);
                    }
                }
            }
            l = cur;
        }
    proof {
        assert(covers_witnessed(points@, ids@, levels@, cov_all)) by {
            assert forall|j2: int|
                #![trigger cov_all[j2]]
                0 <= j2 < ids@.len() implies 0 <= cov_all[j2] < points@.len()
                && points@[cov_all[j2]].point_id == ids@[j2] && points@[cov_all[j2]].level
                == levels@[j2] by {
                assert(levels@[j2] >= 0);
                assert(0 <= cov_all[j2] < points@.len() && points@[cov_all[j2]].point_id
                    == ids@[j2] && points@[cov_all[j2]].level == levels@[j2]);
            }
        }
    }
    (points, batches, Ghost((wit_all, cov_all)))
}


/// Point ids partitioned into per-level batches sized for parallel dispatch,
/// ordered from the highest level downward, then by insertion order within a
/// level.
pub struct BatchedPoints {
    points: Vec<PointEntry>,
    batches: Vec<Batch>,
    levels_count: usize,
    groups_count: usize,
}

impl BatchedPoints {
    pub closed spec fn spec_points(self) -> Seq<PointEntry> {
        self.points@
    }

    pub closed spec fn spec_batches(self) -> Seq<Batch> {
        self.batches@
    }

    pub closed spec fn spec_levels_count(self) -> nat {
        self.levels_count as nat
    }

    pub closed spec fn spec_groups_count(self) -> nat {
        self.groups_count as nat
    }

    pub open spec fn wf(self) -> bool {
        &&& self.spec_groups_count() >= 1
        &&& forall|k: int|
            0 <= k < self.spec_points().len() ==> (#[trigger] self.spec_points()[k]).level
                < self.spec_levels_count()
        &&& forall|k1: int, k2: int|
            #![trigger self.spec_points()[k1], self.spec_points()[k2]]
            0 <= k1 <= k2 < self.spec_points().len() ==> self.spec_points()[k1].level
                >= self.spec_points()[k2].level
        &&& batches_cover(
            self.spec_batches(),
            self.spec_points(),
            self.spec_points().len() as int,
            self.spec_groups_count() as int,
        )
        &&& (self.spec_points().len() == 0 ==> self.spec_levels_count() == 0)
        &&& (self.spec_points().len() > 0 ==> self.spec_points()[0].level
            == self.spec_levels_count() - 1)
    }

    /// Every produced entry is one of the given `(id, level)` pairs.
    pub open spec fn from_pairs(self, ids: Seq<u32>, levels: Seq<usize>) -> bool {
        exists|w: Seq<int>| #[trigger] points_witnessed(self.spec_points(), ids, levels, w)
    }

    /// As `from_pairs`, with one witness assignment that keeps the input
    /// order within each level and uses no input pair twice.
    pub open spec fn ordered_from_pairs(self, ids: Seq<u32>, levels: Seq<usize>) -> bool {
        exists|w: Seq<int>|
            #[trigger] points_witnessed(self.spec_points(), ids, levels, w)
                && within_level_ordered(self.spec_points(), w)
    }

    /// Every given pair appears among the produced entries.
    pub open spec fn covers_pairs(self, ids: Seq<u32>, levels: Seq<usize>) -> bool {
        exists|cov: Seq<int>| #[trigger] covers_witnessed(self.spec_points(), ids, levels, cov)
    }

    /// Partition the given points into per-level batches, balanced across
    /// `groups_count` work units.  `levels[j]` is the assigned maximum level
    /// of `ids[j]`; with the pairing given as plain values, an inconsistent
    /// level lookup cannot arise.
    #[verifier::spinoff_prover]
    #[verifier::rlimit(100)]
    pub fn new(ids: &Vec<u32>, levels: &Vec<usize>, groups_count: usize) -> (r: Self)
        requires
            ids@.len() == levels@.len(),
            groups_count >= 1,
            forall|j: int| 0 <= j < levels@.len() ==> #[trigger] levels@[j] < usize::MAX,
        ensures
            r.wf(),
            r.spec_groups_count() == groups_count,
            r.from_pairs(ids@, levels@),
            r.ordered_from_pairs(ids@, levels@),
            r.covers_pairs(ids@, levels@),
            forall|j: int| 0 <= j < levels@.len() ==> #[trigger] levels@[j] < r.spec_levels_count(),
    {
        let n: usize = ids.len();
        let mut max_level: usize = 0;
        let mut j: usize = 0;
        while j < n
            invariant
                j <= n,
                n == levels@.len(),
                forall|t: int| 0 <= t < j ==> #[trigger] levels@[t] <= max_level,
                j > 0 ==> exists|t: int| 0 <= t < j && #[trigger] levels@[t] == max_level,
                j == 0 ==> max_level == 0,
                forall|t: int| 0 <= t < levels@.len() ==> #[trigger] levels@[t] < usize::MAX,
            decreases n - j,
        {
            if levels[j] > max_level {
                max_level = levels[j];
                assert(levels@[j as int] == max_level);
            } else {
                if j == 0 {
                    assert(levels@[0] == max_level);
                }
            }
            j += 1;
        }
        let levels_count: usize = if n == 0 {
            0
        } else {
            max_level + 1
        };
        let sorted = sort_points(ids, levels, groups_count, levels_count, max_level);
        let points = sorted.0;
        let batches = sorted.1;
        let ghost wit_all: Seq<int> = sorted.2@.0;
        let ghost cov_all: Seq<int> = sorted.2@.1;
        let r = BatchedPoints { points, batches, levels_count, groups_count };
        proof {
            assert(r.spec_points() == points@);
            assert(points_witnessed(r.spec_points(), ids@, levels@, wit_all));
            assert(within_level_ordered(r.spec_points(), wit_all));
            assert(covers_witnessed(r.spec_points(), ids@, levels@, cov_all));
        }
        r
    }

    pub fn num_points(&self) -> (r: usize)
        ensures
            r == self.spec_points().len(),
    {
        self.points.len()
    }

    pub fn point(&self, i: usize) -> (r: PointEntry)
        requires
            i < self.spec_points().len(),
        ensures
            r == self.spec_points()[i as int],
    {
        self.points[i]
    }

    pub fn batches_count(&self) -> (r: usize)
        ensures
            r == self.spec_batches().len(),
    {
        self.batches.len()
    }

    pub fn batch(&self, b: usize) -> (r: Batch)
        requires
            b < self.spec_batches().len(),
        ensures
            r == self.spec_batches()[b as int],
    {
        self.batches[b]
    }

    /// Total level count: one past the highest assigned level.
    pub fn levels_count(&self) -> (r: usize)
        ensures
            r == self.spec_levels_count(),
    {
        self.levels_count
    }

    /// The id remap for dense device addressing: position `i` of the sorted
    /// insertion order holds the original id it stands for.
    pub fn remap(&self) -> (r: Vec<u32>)
        ensures
            r@.len() == self.spec_points().len(),
            forall|i: int|
                0 <= i < r@.len() ==> #[trigger] r@[i] == self.spec_points()[i].point_id,
    {
        let mut r: Vec<u32> = Vec::new();
        let mut i: usize = 0;
        while i < self.points.len()
            invariant
                i <= self.points@.len(),
                r@.len() == i,
                forall|t: int| 0 <= t < i ==> #[trigger] r@[t] == self.points@[t].point_id,
            decreases self.points@.len() - i,
        {
            r.push(self.points[i].point_id);
            i += 1;
        }
        r
    }

    /// Whether any batch of points remains once the first `processed` points
    /// of the insertion order are skipped.
    pub fn has_remaining(&self, processed: usize) -> (r: bool)
        ensures
            r == (processed < self.spec_points().len()),
    {
        processed < self.points.len()
    }
}

} // verus!
