use vstd::prelude::*;

verus! {

/// Largest magnitude a vector component may have.  Keeps every squared
/// distance over at most `MAX_DIM` dimensions inside `u64`.
pub const VECTOR_VALUE_BOUND: i32 = 1_000_000;

/// Largest supported dimension count.
pub const MAX_DIM: usize = 16384;

/// Upper bound on one squared component difference:
/// `(2 * VECTOR_VALUE_BOUND)^2`.
pub const MAX_SQ_DIFF: u64 = 4_000_000_000_000;

/// A vector fit for scoring: exactly `dim` components, all bounded.
pub open spec fn vector_ok(v: Seq<i32>, dim: nat) -> bool {
    &&& v.len() == dim
    &&& forall|i: int|
        0 <= i < v.len() ==> -(VECTOR_VALUE_BOUND as int) <= #[trigger] v[i]
            <= VECTOR_VALUE_BOUND as int
}

/// Squared difference of two components.
pub open spec fn sq_diff(a: int, b: int) -> int {
    (a - b) * (a - b)
}

/// Exact score over the first `n` components: the sum of squared differences.
pub open spec fn dist_upto(a: Seq<i32>, b: Seq<i32>, n: int) -> int
    decreases n,
{
    if n <= 0 {
        0
    } else {
        dist_upto(a, b, n - 1) + sq_diff(a[n - 1] as int, b[n - 1] as int)
    }
}

/// Approximate (coarsened) score over the first `n` components: each squared
/// difference is quantized down to a sixteenth before summing.
pub open spec fn qdist_upto(a: Seq<i32>, b: Seq<i32>, n: int) -> int
    decreases n,
{
    if n <= 0 {
        0
    } else {
        qdist_upto(a, b, n - 1) + sq_diff(a[n - 1] as int, b[n - 1] as int) / 16
    }
}

/// The score of one vector pair; `exact` selects brute-force scoring over the
/// quantized approximation.  Smaller is closer.
pub open spec fn spec_score(exact: bool, a: Seq<i32>, b: Seq<i32>) -> int {
    if exact {
        dist_upto(a, b, a.len() as int)
    } else {
        qdist_upto(a, b, a.len() as int)
    }
}

proof fn lemma_sq_diff_bounds(a: int, b: int)
    requires
        -(VECTOR_VALUE_BOUND as int) <= a <= VECTOR_VALUE_BOUND as int,
        -(VECTOR_VALUE_BOUND as int) <= b <= VECTOR_VALUE_BOUND as int,
    ensures
        0 <= sq_diff(a, b) <= MAX_SQ_DIFF as int,
{
    assert(0 <= (a - b) * (a - b) <= 4_000_000_000_000) by (nonlinear_arith)
        requires
            -2_000_000 <= a - b <= 2_000_000,
    ;
}

proof fn lemma_dist_upto_bounds(a: Seq<i32>, b: Seq<i32>, dim: nat, n: int)
    requires
        vector_ok(a, dim),
        vector_ok(b, dim),
        0 <= n <= dim,
    ensures
        0 <= dist_upto(a, b, n) <= n * (MAX_SQ_DIFF as int),
        0 <= qdist_upto(a, b, n) <= n * (MAX_SQ_DIFF as int),
    decreases n,
{
    if n > 0 {
        lemma_dist_upto_bounds(a, b, dim, n - 1);
        lemma_sq_diff_bounds(a[n - 1] as int, b[n - 1] as int);
    }
}

/// The vector corpus staged for the build: one bounded vector of a common
/// dimension per point, addressed by the dense point id.
pub struct GpuVectorStorage {
    dim: usize,
    vectors: Vec<Vec<i32>>,
}

impl GpuVectorStorage {
    pub closed spec fn spec_dim(self) -> nat {
        self.dim as nat
    }

    pub closed spec fn spec_vectors(self) -> Seq<Seq<i32>> {
        Seq::new(self.vectors@.len(), |i: int| self.vectors@[i]@)
    }

    pub open spec fn spec_len(self) -> nat {
        self.spec_vectors().len()
    }

    /// Every stored vector has the common dimension and bounded components.
    pub open spec fn wf(self) -> bool {
        &&& self.spec_dim() <= MAX_DIM as nat
        &&& forall|i: int|
            0 <= i < self.spec_vectors().len() ==> vector_ok(
                #[trigger] self.spec_vectors()[i],
                self.spec_dim(),
            )
    }

    /// Stage a corpus.  Succeeds exactly when the dimension is supported and
    /// every vector has that dimension with bounded components.
    pub fn new(dim: usize, vectors: Vec<Vec<i32>>) -> (r: Option<Self>)
        ensures
            match r {
                Some(s) => {
                    &&& s.wf()
                    &&& s.spec_dim() == dim as nat
                    &&& s.spec_vectors() == Seq::new(
                        vectors@.len(),
                        |i: int| vectors@[i]@,
                    )
                },
                None => !(dim <= MAX_DIM && forall|i: int|
                    0 <= i < vectors@.len() ==> vector_ok(#[trigger] vectors@[i]@, dim as nat)),
            },
    {
        if dim > MAX_DIM {
            return None;
        }
        let mut i: usize = 0;
        while i < vectors.len()
            invariant
                i <= vectors.len(),
                dim <= MAX_DIM,
                forall|j: int| 0 <= j < i ==> vector_ok(#[trigger] vectors@[j]@, dim as nat),
            decreases vectors.len() - i,
        {
            let v = &vectors[i];
            if v.len() != dim {
                return None;
            }
            let mut k: usize = 0;
            while k < v.len()
                invariant
                    k <= v.len(),
                    i < vectors@.len(),
                    v@ == vectors@[i as int]@,
                    v@.len() == dim,
                    forall|t: int|
                        0 <= t < k ==> -(VECTOR_VALUE_BOUND as int) <= #[trigger] v@[t]
                            <= VECTOR_VALUE_BOUND as int,
                decreases v.len() - k,
            {
                if v[k] < -VECTOR_VALUE_BOUND || v[k] > VECTOR_VALUE_BOUND {
                    return None;
                }
                k += 1;
            }
            assert(vector_ok(vectors@[i as int]@, dim as nat));
            i += 1;
        }
        let s = GpuVectorStorage { dim, vectors };
        assert(s.spec_vectors() =~= Seq::new(s.vectors@.len(), |i: int| s.vectors@[i]@));
        Some(s)
    }

    pub fn len(&self) -> (r: usize)
        ensures
            r == self.spec_len(),
    {
        self.vectors.len()
    }

    /// A deep copy, staged for a device context of its own.
    pub fn clone_storage(&self) -> (r: Self)
        ensures
            r.spec_dim() == self.spec_dim(),
            r.spec_vectors() == self.spec_vectors(),
            self.wf() ==> r.wf(),
    {
        let mut vectors: Vec<Vec<i32>> = Vec::new();
        let mut i: usize = 0;
        while i < self.vectors.len()
            invariant
                i <= self.vectors@.len(),
                vectors@.len() == i,
                forall|t: int| 0 <= t < i ==> (#[trigger] vectors@[t])@ == self.vectors@[t]@,
            decreases self.vectors@.len() - i,
        {
            let src = &self.vectors[i];
            let mut v: Vec<i32> = Vec::new();
            let mut k: usize = 0;
            while k < src.len()
                invariant
                    k <= src@.len(),
                    src@ == self.vectors@[i as int]@,
                    i < self.vectors@.len(),
                    v@ =~= src@.subrange(0, k as int),
                decreases src@.len() - k,
            {
                v.push(src[k]);
                k += 1;
            }
            assert(v@ =~= src@);
            vectors.push(v);
            i += 1;
        }
        let r = GpuVectorStorage { dim: self.dim, vectors };
        proof {
            assert(r.spec_vectors() =~= self.spec_vectors());
        }
        r
    }

    pub fn dim(&self) -> (r: usize)
        ensures
            r == self.spec_dim(),
    {
        self.dim
    }

    /// Score the pair of stored vectors `a` and `b`; smaller is closer.
    pub fn score(&self, exact: bool, a: u32, b: u32) -> (r: u64)
        requires
            self.wf(),
            a < self.spec_len(),
            b < self.spec_len(),
        ensures
            r == spec_score(exact, self.spec_vectors()[a as int], self.spec_vectors()[b as int]),
    {
        let va = &self.vectors[a as usize];
        let vb = &self.vectors[b as usize];
        let ghost sa = self.spec_vectors()[a as int];
        let ghost sb = self.spec_vectors()[b as int];
        assert(va@ == sa && vb@ == sb);
        let mut acc: u64 = 0;
        let mut i: usize = 0;
        while i < va.len()
            invariant
                i <= va.len(),
                va@ == sa,
                vb@ == sb,
                vector_ok(sa, self.spec_dim()),
                vector_ok(sb, self.spec_dim()),
                self.spec_dim() <= MAX_DIM as nat,
                acc == if exact {
                    dist_upto(sa, sb, i as int)
                } else {
                    qdist_upto(sa, sb, i as int)
                },
            decreases va.len() - i,
        {
            proof {
                lemma_dist_upto_bounds(sa, sb, self.spec_dim(), i as int);
                lemma_sq_diff_bounds(sa[i as int] as int, sb[i as int] as int);
            }
            let d: i64 = va[i] as i64 - vb[i] as i64;
            assert(-2_000_000 <= d <= 2_000_000);
            assert(0 <= (d as int) * (d as int) <= 4_000_000_000_000) by (nonlinear_arith)
                requires
                    -2_000_000 <= d as int <= 2_000_000,
            ;
            let sq: u64 = (d * d) as u64;
            assert(sq == sq_diff(sa[i as int] as int, sb[i as int] as int));
            if exact {
                acc = acc + sq;
            } else {
                acc = acc + sq / 16;
            }
            i += 1;
        }
        acc
    }
}

} // verus!
