use vstd::prelude::*;

use crate::HnswM;
use crate::batched_points::{Batch, BatchedPoints, covers_witnessed, points_witnessed};
use crate::builder::{
    FilteredScorer, GraphLayersBuilder, create_graph_layers_builder, lemma_entries_cover_ids,
    lemma_entry_at_least_preserved,
};
use crate::cancel::CancelToken;
use crate::errors::{OperationError, OperationResult};
use crate::graph::{
    Candidate, lemma_off_level_from_point_update, lemma_off_level_trans, lemma_shape_eq_trans,
    links_eq3, links_eq_off_level, links_shape_eq, links_wf, list_ok, search_layer, select_diverse,
    set_links_checked, try_add_link,
};
use crate::vectors::GpuVectorStorage;

verus! {

/// Maximum count of point ids per visited flag.
pub const GPU_MAX_VISITED_FLAGS_FACTOR: usize = 32;

/// An assigned level, kept one below the machine bound so that a level count
/// (one past the level) always fits.
spec fn capped_level(l: int) -> int {
    if l == usize::MAX {
        usize::MAX - 1
    } else {
        l
    }
}

/// The accelerated insert context: the staged vectors, the construction
/// parameters, and the device-side copies of the adjacency, readiness and
/// entry state that the per-level computation works against.
pub struct GpuInsertContext {
    storage: GpuVectorStorage,
    groups_count: usize,
    hnsw_m: HnswM,
    ef: usize,
    exact: bool,
    visited_flags_factor: usize,
    remap: Vec<u32>,
    device_links: Vec<Vec<Vec<u32>>>,
    device_ready: Vec<bool>,
    device_entries: Vec<u32>,
}

impl GpuInsertContext {
    pub closed spec fn spec_storage(self) -> GpuVectorStorage {
        self.storage
    }

    pub closed spec fn spec_hnsw_m(self) -> HnswM {
        self.hnsw_m
    }

    pub closed spec fn spec_exact(self) -> bool {
        self.exact
    }

    pub closed spec fn spec_groups_count(self) -> usize {
        self.groups_count
    }

    /// The device-side adjacency state.
    pub closed spec fn spec_device_links(self) -> Seq<Vec<Vec<u32>>> {
        self.device_links@
    }

    /// The device-side readiness marks.
    pub closed spec fn spec_device_ready(self) -> Seq<bool> {
        self.device_ready@
    }

    /// The device-side entry points.
    pub closed spec fn spec_device_entries(self) -> Seq<u32> {
        self.device_entries@
    }

    /// The device-side id remap.
    pub closed spec fn spec_remap(self) -> Seq<u32> {
        self.remap@
    }

    pub open spec fn wf(self) -> bool {
        &&& self.spec_storage().wf()
        &&& self.spec_groups_count() >= 1
        &&& self.device_wf()
    }

    /// The device-side copies are well-formed against the staged vectors.
    pub closed spec fn device_wf(self) -> bool {
        &&& links_wf(self.device_links@, self.hnsw_m)
        &&& self.device_links@.len() <= self.storage.spec_len()
        &&& self.device_ready@.len() == self.device_links@.len()
        &&& forall|e: int|
            0 <= e < self.device_entries@.len() ==> #[trigger] self.device_entries@[e]
                < self.device_links@.len()
    }

    /// Acquire the context.  Succeeds exactly when the parallelism degree is
    /// at least one and the visited-pool factor range is sensible; otherwise
    /// the required resources cannot be allocated.
    pub fn new(
        storage: &GpuVectorStorage,
        groups_count: usize,
        hnsw_m: HnswM,
        ef: usize,
        exact: bool,
        min_visited_flags_factor: usize,
        max_visited_flags_factor: usize,
    ) -> (r: OperationResult<Self>)
        requires
            storage.wf(),
        ensures
            match r {
                Ok(ctx) => {
                    &&& groups_count >= 1
                    &&& 1 <= min_visited_flags_factor <= max_visited_flags_factor
                    &&& ctx.wf()
                    &&& ctx.spec_storage().spec_vectors() == storage.spec_vectors()
                    &&& ctx.spec_storage().spec_dim() == storage.spec_dim()
                    &&& ctx.spec_storage().spec_len() == storage.spec_len()
                    &&& ctx.spec_hnsw_m() == hnsw_m
                    &&& ctx.spec_exact() == exact
                    &&& ctx.spec_groups_count() == groups_count
                },
                Err(e) => {
                    &&& e == OperationError::ResourceCreationFailure
                    &&& !(groups_count >= 1 && 1 <= min_visited_flags_factor
                        <= max_visited_flags_factor)
                },
            },
    {
        if groups_count == 0 || min_visited_flags_factor == 0 || min_visited_flags_factor
            > max_visited_flags_factor {
            return Err(OperationError::ResourceCreationFailure);
        }
        let factor: usize = if max_visited_flags_factor > GPU_MAX_VISITED_FLAGS_FACTOR {
            GPU_MAX_VISITED_FLAGS_FACTOR
        } else {
            max_visited_flags_factor
        };
        Ok(
            GpuInsertContext {
                storage: storage.clone_storage(),
                groups_count,
                hnsw_m,
                ef,
                exact,
                visited_flags_factor: factor,
                remap: Vec::new(),
                device_links: Vec::new(),
                device_ready: Vec::new(),
                device_entries: Vec::new(),
            },
        )
    }

    pub fn exact(&self) -> (r: bool)
        ensures
            r == self.spec_exact(),
    {
        self.exact
    }

    pub fn storage(&self) -> (r: &GpuVectorStorage)
        ensures
            *r == self.spec_storage(),
    {
        &self.storage
    }

    /// Upload the id remap once per build; required before any per-level
    /// call.  The stored table is exactly the given remap.
    pub fn init(&mut self, remap: &Vec<u32>) -> (r: OperationResult<()>)
        requires
            old(self).wf(),
        ensures
            r is Ok,
            final(self).wf(),
            final(self).spec_storage() == old(self).spec_storage(),
            final(self).spec_hnsw_m() == old(self).spec_hnsw_m(),
            final(self).spec_exact() == old(self).spec_exact(),
            final(self).spec_groups_count() == old(self).spec_groups_count(),
            final(self).spec_remap() == remap@,
            final(self).spec_device_links() == old(self).spec_device_links(),
            final(self).spec_device_ready() == old(self).spec_device_ready(),
            final(self).spec_device_entries() == old(self).spec_device_entries(),
    {
        let mut copy: Vec<u32> = Vec::new();
        let mut i: usize = 0;
        while i < remap.len()
            invariant
                i <= remap@.len(),
                copy@ =~= remap@.subrange(0, i as int),
            decreases remap@.len() - i,
        {
            copy.push(remap[i]);
            i += 1;
        }
        proof {
            assert(copy@ =~= remap@);
        }
        self.remap = copy;
        Ok(())
    }

    /// Copy the builder's current adjacency, readiness and entry state into
    /// device memory: everything established by the sequential phase and by
    /// all previously processed higher levels.  Polls the token first and
    /// applies nothing once cancellation is observed.
    pub fn upload_links(
        &mut self,
        level: usize,
        builder: &GraphLayersBuilder,
        stopped: &mut CancelToken,
    ) -> (r: OperationResult<()>)
        requires
            old(self).wf(),
            builder.wf(),
            builder.spec_num_points() <= old(self).spec_storage().spec_len(),
            builder.spec_hnsw_m() == old(self).spec_hnsw_m(),
        ensures
            final(self).spec_storage() == old(self).spec_storage(),
            final(self).spec_hnsw_m() == old(self).spec_hnsw_m(),
            final(self).spec_exact() == old(self).spec_exact(),
            final(self).spec_groups_count() == old(self).spec_groups_count(),
            final(self).wf(),
            r is Ok ==> links_eq3(final(self).spec_device_links(), builder.spec_links()),
            r is Ok ==> final(self).spec_device_ready() == builder.spec_ready(),
            r is Ok ==> final(self).spec_device_entries() == builder.spec_entry_points(),
            r is Err ==> r == Err::<(), OperationError>(OperationError::Interrupted) && *final(self) == *old(self),
            r is Err ==> final(stopped).is_stopped(),
            r is Ok ==> !final(stopped).is_stopped(),
            old(stopped).never_trips() ==> r is Ok && *final(stopped) == *old(stopped),
    {
        if stopped.poll() {
            return Err(OperationError::Interrupted);
        }
        let src = builder.links_layers();
        let mut links: Vec<Vec<Vec<u32>>> = Vec::new();
        let mut p: usize = 0;
        while p < src.len()
            invariant
                p <= src@.len(),
                src@ == builder.spec_links(),
                builder.wf(),
                links@.len() == p,
                forall|q: int| 0 <= q < p ==> (#[trigger] links@[q])@.len() == src@[q]@.len(),
                forall|q: int, l: int|
                    #![trigger links@[q]@[l]]
                    0 <= q < p && 0 <= l < links@[q]@.len() ==> links@[q]@[l]@ == src@[q]@[l]@,
            decreases src@.len() - p,
        {
            let row_src = &src[p];
            let mut row: Vec<Vec<u32>> = Vec::new();
            let mut l: usize = 0;
            while l < row_src.len()
                invariant
                    l <= row_src@.len(),
                    row_src@ == src@[p as int]@,
                    p < src@.len(),
                    row@.len() == l,
                    forall|t: int| 0 <= t < l ==> (#[trigger] row@[t])@ == row_src@[t]@,
                decreases row_src@.len() - l,
            {
                let list_src = &row_src[l];
                let mut list: Vec<u32> = Vec::new();
                let mut k: usize = 0;
                while k < list_src.len()
                    invariant
                        k <= list_src@.len(),
                        list_src@ == row_src@[l as int]@,
                        l < row_src@.len(),
                        list@ =~= list_src@.subrange(0, k as int),
                    decreases list_src@.len() - k,
                {
                    list.push(list_src[k]);
                    k += 1;
                }
                assert(list@ =~= list_src@);
                row.push(list);
                l += 1;
            }
            links.push(row);
            p += 1;
        }
        let mut ready: Vec<bool> = Vec::new();
        let rsrc = builder.ready_list();
        let mut i: usize = 0;
        while i < rsrc.len()
            invariant
                i <= rsrc@.len(),
                ready@.len() == i,
                forall|t: int| 0 <= t < i ==> #[trigger] ready@[t] == rsrc@[t],
            decreases rsrc@.len() - i,
        {
            ready.push(rsrc[i]);
            i += 1;
        }
        let mut entries: Vec<u32> = Vec::new();
        let esrc = builder.entry_points();
        let mut i2: usize = 0;
        while i2 < esrc.len()
            invariant
                i2 <= esrc@.len(),
                entries@.len() == i2,
                forall|t: int| 0 <= t < i2 ==> #[trigger] entries@[t] == esrc@[t],
            decreases esrc@.len() - i2,
        {
            entries.push(esrc[i2]);
            i2 += 1;
        }
        proof {
            assert forall|q: int, l: int, k: int|
                #![trigger links@[q]@[l]@[k]]
                0 <= q < links@.len() && 0 <= l < links@[q]@.len() && 0 <= k
                    < links@[q]@[l]@.len() implies {
                &&& links@[q]@[l]@[k] != q
                &&& links@[q]@[l]@[k] < links@.len()
                &&& links@[links@[q]@[l]@[k] as int]@.len() > l
            } by {
                assert(links@[q]@[l]@ == builder.spec_links()[q]@[l]@);
                let c = builder.spec_links()[q]@[l]@[k];
                assert(c != q && c < builder.spec_links().len()
                    && builder.spec_links()[c as int]@.len() > l);
                assert(links@[c as int]@.len() == builder.spec_links()[c as int]@.len());
            }
            assert forall|q: int, l: int|
                #![trigger links@[q]@[l]]
                0 <= q < links@.len() && 0 <= l < links@[q]@.len() implies links@[q]@[l]@.len()
                <= self.hnsw_m.spec_level_m(l as nat) by {
                assert(links@[q]@[l]@ == builder.spec_links()[q]@[l]@);
            }
        }
        self.device_links = links;
        self.device_ready = ready;
        self.device_entries = entries;
        Ok(())
    }

    /// Copy the device's computed adjacency for `level` back into the
    /// builder, overwriting that level's previous state and leaving every
    /// other level untouched.  Polls the token first and applies nothing once
    /// cancellation is observed.
    #[verifier::spinoff_prover]
    #[verifier::rlimit(60)]
    pub fn download_links(
        &self,
        level: usize,
        builder: &mut GraphLayersBuilder,
        stopped: &mut CancelToken,
    ) -> (r: OperationResult<()>)
        requires
            self.wf(),
            old(builder).wf(),
            old(builder).spec_num_points() <= u32::MAX,
            links_shape_eq(self.spec_device_links(), old(builder).spec_links()),
            old(builder).spec_hnsw_m() == self.spec_hnsw_m(),
        ensures
            final(builder).wf(),
            final(builder).spec_num_points() == old(builder).spec_num_points(),
            final(builder).spec_hnsw_m() == old(builder).spec_hnsw_m(),
            final(builder).spec_ef_construct() == old(builder).spec_ef_construct(),
            final(builder).spec_entry_points() == old(builder).spec_entry_points(),
            final(builder).spec_ready() == old(builder).spec_ready(),
            links_shape_eq(final(builder).spec_links(), old(builder).spec_links()),
            r is Ok ==> forall|q: int|
                #![trigger final(builder).spec_links()[q]]
                0 <= q < old(builder).spec_num_points() && (level as int) < old(builder).spec_links()[q]@.len()
                    ==> (final(builder).spec_links()[q]@[level as int])@
                    == (self.spec_device_links()[q]@[level as int])@,
            r is Ok ==> forall|q: int, l: int|
                #![trigger final(builder).spec_links()[q]@[l]]
                0 <= q < old(builder).spec_num_points() && 0 <= l < old(builder).spec_links()[q]@.len()
                    && l != level ==> (final(builder).spec_links()[q]@[l])@
                    == (old(builder).spec_links()[q]@[l])@,
            r is Err ==> r == Err::<(), OperationError>(OperationError::Interrupted) && *final(builder) == *old(builder),
            r is Err ==> final(stopped).is_stopped(),
            r is Ok ==> !final(stopped).is_stopped(),
            old(stopped).never_trips() ==> r is Ok && *final(stopped) == *old(stopped),
    {
        if stopped.poll() {
            return Err(OperationError::Interrupted);
        }
        let n: usize = builder.num_points();
        let mut p: usize = 0;
        while p < n
            invariant
                p <= n,
                n == builder.spec_num_points(),
                n <= u32::MAX,
                self.wf(),
                links_shape_eq(self.spec_device_links(), old(builder).spec_links()),
                old(builder).spec_hnsw_m() == self.spec_hnsw_m(),
                builder.wf(),
                builder.spec_num_points() == old(builder).spec_num_points(),
                builder.spec_hnsw_m() == old(builder).spec_hnsw_m(),
                builder.spec_ef_construct() == old(builder).spec_ef_construct(),
                builder.spec_entry_points() == old(builder).spec_entry_points(),
                builder.spec_ready() == old(builder).spec_ready(),
                links_shape_eq(builder.spec_links(), old(builder).spec_links()),
                forall|q: int|
                    p <= q < n ==> #[trigger] builder.spec_links()[q] == old(builder).spec_links()[q],
                forall|q: int|
                    #![trigger builder.spec_links()[q]]
                    0 <= q < p && (level as int) < old(builder).spec_links()[q]@.len()
                        ==> (builder.spec_links()[q]@[level as int])@
                        == (self.spec_device_links()[q]@[level as int])@,
                forall|q: int, l: int|
                    #![trigger builder.spec_links()[q]@[l]]
                    0 <= q < n && 0 <= l < old(builder).spec_links()[q]@.len() && l != level
                        ==> (builder.spec_links()[q]@[l])@ == (old(builder).spec_links()[q]@[l])@,
            decreases n - p,
        {
            proof {
                assert(self.device_links@.len() == n);
            }
            let row = &self.device_links[p];
            if level < row.len() {
                let list = &row[level];
                let ghost pre_b = builder.spec_links();
                proof {
                    assert(builder.spec_links()[p as int]@.len() == old(builder).spec_links()[p as int]@.len());
                    assert(old(builder).spec_links()[p as int]@.len() == self.device_links@[p as int]@.len());
                    assert(list@ == self.device_links@[p as int]@[level as int]@);
                    assert(self.device_links@[p as int]@[level as int]@.len()
                        <= self.hnsw_m.spec_level_m(level as nat));
                    assert forall|k: int|
                        0 <= k < list@.len() implies #[trigger] list@[k] != p && list@[k]
                        < builder.spec_links().len() && builder.spec_links()[list@[k] as int]@.len()
                        > level by {
                        assert(self.device_links@[p as int]@[level as int]@[k] != p
                            && self.device_links@[p as int]@[level as int]@[k]
                            < self.device_links@.len()
                            && self.device_links@[self.device_links@[p as int]@[level as int]@[k] as int]@.len()
                            > level);
                        let c = list@[k];
                        assert(builder.spec_links()[c as int]@.len()
                            == old(builder).spec_links()[c as int]@.len());
                        assert(old(builder).spec_links()[c as int]@.len()
                            == self.device_links@[c as int]@.len());
                    }
                    assert(list_ok(
                        list@,
                        builder.spec_links(),
                        builder.spec_hnsw_m(),
                        p as int,
                        level as int,
                    ));
                }
                builder.set_level_links(p as u32, level, list);
                proof {
                    lemma_shape_eq_trans(
                        builder.spec_links(),
                        pre_b,
                        old(builder).spec_links(),
                    );
                    assert((builder.spec_links()[p as int]@[level as int])@ == list@);
                    assert forall|q: int|
                        p + 1 <= q < n implies #[trigger] builder.spec_links()[q]
                        == old(builder).spec_links()[q] by {
                        assert(builder.spec_links()[q] == pre_b[q]);
                    }
                    assert forall|q: int|
                        #![trigger builder.spec_links()[q]]
                        0 <= q < p + 1 && (level as int) < old(builder).spec_links()[q]@.len()
                            implies (builder.spec_links()[q]@[level as int])@
                        == (self.spec_device_links()[q]@[level as int])@ by {
                        if q < p {
                            assert(builder.spec_links()[q] == pre_b[q]);
                        }
                    }
                    assert forall|q: int, l: int|
                        #![trigger builder.spec_links()[q]@[l]]
                        0 <= q < n && 0 <= l < old(builder).spec_links()[q]@.len() && l != level
                            implies (builder.spec_links()[q]@[l])@
                        == (old(builder).spec_links()[q]@[l])@ by {
                        if q != p {
                            assert(builder.spec_links()[q] == pre_b[q]);
                            assert((pre_b[q]@[l])@ == (old(builder).spec_links()[q]@[l])@);
                        } else {
                            assert((builder.spec_links()[p as int]@[l])@ == (pre_b[p as int]@[l])@);
                            assert((pre_b[p as int]@[l])@ == (old(builder).spec_links()[p as int]@[l])@);
                        }
                    }
                }
            }
            p += 1;
        }
        Ok(())
    }
}

/// Compute one level's links for every non-seeded point of every batch of
/// that level, each batch against the state left by the batches before it,
/// with no point in a batch observing another in-batch point's output.
/// Cancellation is polled per batch.
#[verifier::spinoff_prover]
#[verifier::rlimit(100)]
pub fn build_level_on_gpu(
    gpu_insert_context: &mut GpuInsertContext,
    batched_points: &BatchedPoints,
    skip_count: usize,
    level: usize,
    stopped: &mut CancelToken,
) -> (r: OperationResult<()>)
    requires
        old(gpu_insert_context).wf(),
        batched_points.wf(),
    ensures
        final(gpu_insert_context).wf(),
        final(gpu_insert_context).spec_storage() == old(gpu_insert_context).spec_storage(),
        final(gpu_insert_context).spec_hnsw_m() == old(gpu_insert_context).spec_hnsw_m(),
        final(gpu_insert_context).spec_exact() == old(gpu_insert_context).spec_exact(),
        final(gpu_insert_context).spec_groups_count() == old(gpu_insert_context).spec_groups_count(),
        links_shape_eq(
            final(gpu_insert_context).spec_device_links(),
            old(gpu_insert_context).spec_device_links(),
        ),
        links_eq_off_level(
            final(gpu_insert_context).spec_device_links(),
            old(gpu_insert_context).spec_device_links(),
            level as int,
        ),
        r is Err ==> r == Err::<(), OperationError>(OperationError::Interrupted),
        r is Err ==> final(stopped).is_stopped(),
        r is Ok ==> !final(stopped).is_stopped() || *final(stopped) == *old(stopped),
        old(stopped).never_trips() ==> r is Ok && *final(stopped) == *old(stopped),
{
    let mut b: usize = 0;
    let nb: usize = batched_points.batches_count();
    while b < nb
        invariant
            b <= nb,
            nb == batched_points.spec_batches().len(),
            batched_points.wf(),
            gpu_insert_context.wf(),
            gpu_insert_context.spec_storage() == old(gpu_insert_context).spec_storage(),
            gpu_insert_context.spec_hnsw_m() == old(gpu_insert_context).spec_hnsw_m(),
            gpu_insert_context.spec_exact() == old(gpu_insert_context).spec_exact(),
            gpu_insert_context.spec_groups_count() == old(gpu_insert_context).spec_groups_count(),
            links_shape_eq(
                gpu_insert_context.spec_device_links(),
                old(gpu_insert_context).spec_device_links(),
            ),
            links_eq_off_level(
                gpu_insert_context.spec_device_links(),
                old(gpu_insert_context).spec_device_links(),
                level as int,
            ),
            !stopped.is_stopped() || *stopped == *old(stopped),
            old(stopped).never_trips() ==> *stopped == *old(stopped),
        decreases nb - b,
    {
        let batch = batched_points.batch(b);
        if batch.level < level {
            break ;
        }
        if stopped.poll() {
            return Err(OperationError::Interrupted);
        }
        let ghost pre3 = gpu_insert_context.spec_device_links();
        process_batch(gpu_insert_context, batched_points, batch, skip_count, level);
        proof {
            lemma_shape_eq_trans(
                gpu_insert_context.spec_device_links(),
                pre3,
                old(gpu_insert_context).spec_device_links(),
            );
            lemma_off_level_trans(
                gpu_insert_context.spec_device_links(),
                pre3,
                old(gpu_insert_context).spec_device_links(),
                level as int,
            );
        }
        b += 1;
    }
    Ok(())
}

/// Compute the links of one batch's non-seeded points against the state at
/// batch start, then apply them in batch order: no point of the batch
/// observes another in-batch point's output.
fn process_batch(
    ctx: &mut GpuInsertContext,
    batched_points: &BatchedPoints,
    batch: Batch,
    skip_count: usize,
    level: usize,
)
    requires
        old(ctx).wf(),
        batched_points.wf(),
        batch.start <= batch.end <= batched_points.spec_points().len(),
    ensures
        final(ctx).wf(),
        final(ctx).spec_storage() == old(ctx).spec_storage(),
        final(ctx).spec_hnsw_m() == old(ctx).spec_hnsw_m(),
        final(ctx).spec_exact() == old(ctx).spec_exact(),
        final(ctx).spec_groups_count() == old(ctx).spec_groups_count(),
        links_shape_eq(final(ctx).spec_device_links(), old(ctx).spec_device_links()),
        links_eq_off_level(
            final(ctx).spec_device_links(),
            old(ctx).spec_device_links(),
            level as int,
        ),
{
    // compute every point of the batch against the state at batch start
    let mut results: Vec<(u32, Vec<u32>)> = Vec::new();
    let mut i: usize = batch.start;
    while i < batch.end
        invariant
            batch.start <= i,
            i <= batch.end,
            batch.end <= batched_points.spec_points().len(),
            batched_points.wf(),
            ctx.wf(),
            ctx.spec_storage() == old(ctx).spec_storage(),
            ctx.spec_hnsw_m() == old(ctx).spec_hnsw_m(),
            ctx.spec_exact() == old(ctx).spec_exact(),
            ctx.spec_groups_count() == old(ctx).spec_groups_count(),
        decreases batch.end - i,
    {
        if i >= skip_count {
            let pe = batched_points.point(i);
            let pid = pe.point_id;
            let neighbors = compute_point_links(ctx, pid, level);
            results.push((pid, neighbors));
        }
        i += 1;
    }
    // apply the batch's results, in batch order
    let mut t: usize = 0;
    while t < results.len()
        invariant
            t <= results@.len(),
            ctx.wf(),
            ctx.spec_storage() == old(ctx).spec_storage(),
            ctx.spec_hnsw_m() == old(ctx).spec_hnsw_m(),
            ctx.spec_exact() == old(ctx).spec_exact(),
            ctx.spec_groups_count() == old(ctx).spec_groups_count(),
            links_shape_eq(ctx.spec_device_links(), old(ctx).spec_device_links()),
            links_eq_off_level(ctx.spec_device_links(), old(ctx).spec_device_links(), level as int),
        decreases results@.len() - t,
    {
        let pid = results[t].0;
        let ghost pre2 = ctx.spec_device_links();
        apply_point_links(ctx, pid, level, t, &results);
        proof {
            lemma_shape_eq_trans(
                ctx.spec_device_links(),
                pre2,
                old(ctx).spec_device_links(),
            );
            lemma_off_level_trans(
                ctx.spec_device_links(),
                pre2,
                old(ctx).spec_device_links(),
                level as int,
            );
        }
        t += 1;
    }
}

/// One point's accelerated link computation: descend from the best entry to
/// just above `level`, search `level` with the `ef` frontier, and select
/// diverse neighbors — the same pruning rule as the sequential path.
fn compute_point_links(ctx: &GpuInsertContext, pid: u32, level: usize) -> (r: Vec<u32>)
    requires
        ctx.wf(),
    ensures
        forall|k: int| 0 <= k < r@.len() ==> #[trigger] r@[k] < ctx.spec_storage().spec_len(),
{
    let n: usize = ctx.device_links.len();
    let mut empty: Vec<u32> = Vec::new();
    if (pid as usize) >= n || ctx.device_entries.len() == 0 {
        return empty;
    }
    // best entry point
    let mut e: u32 = ctx.device_entries[0];
    let mut t: usize = 1;
    while t < ctx.device_entries.len()
        invariant
            t <= ctx.device_entries@.len(),
            ctx.wf(),
            e < ctx.device_links@.len(),
        decreases ctx.device_entries@.len() - t,
    {
        let c = ctx.device_entries[t];
        if ctx.device_links[c as usize].len() > ctx.device_links[e as usize].len() {
            e = c;
        }
        t += 1;
    }
    if e == pid || ctx.device_links[e as usize].len() == 0 {
        return empty;
    }
    let e_level: usize = ctx.device_links[e as usize].len() - 1;
    let mut l: usize = e_level;
    while l > level
        invariant
            ctx.wf(),
            e < ctx.device_links@.len(),
            e != pid,
            pid < ctx.device_links@.len(),
            l < ctx.device_links@[e as int]@.len(),
        decreases l,
    {
        let cands = search_layer(
            &ctx.device_links,
            &ctx.device_ready,
            &ctx.storage,
            ctx.exact,
            ctx.hnsw_m,
            pid,
            e,
            l,
            1,
        );
        if cands.len() > 0 {
            e = cands[0].id;
        }
        l -= 1;
    }
    let mut cands: Vec<Candidate> = Vec::new();
    if level < ctx.device_links[e as usize].len() {
        cands = search_layer(
            &ctx.device_links,
            &ctx.device_ready,
            &ctx.storage,
            ctx.exact,
            ctx.hnsw_m,
            pid,
            e,
            level,
            ctx.ef,
        );
    }
    let m: usize = ctx.hnsw_m.level_m(level);
    let neighbors = select_diverse(&ctx.storage, ctx.exact, pid, &cands, m);
    neighbors
}

/// Apply one computed point: set its list for the level, then add the
/// back-edges with capacity eviction, in a fixed deterministic order.
fn apply_point_links(
    ctx: &mut GpuInsertContext,
    pid: u32,
    level: usize,
    t: usize,
    results: &Vec<(u32, Vec<u32>)>,
)
    requires
        old(ctx).wf(),
        t < results@.len(),
        results@[t as int].0 == pid,
    ensures
        final(ctx).wf(),
        final(ctx).spec_storage() == old(ctx).spec_storage(),
        final(ctx).spec_hnsw_m() == old(ctx).spec_hnsw_m(),
        final(ctx).spec_exact() == old(ctx).spec_exact(),
        final(ctx).spec_groups_count() == old(ctx).spec_groups_count(),
        links_shape_eq(final(ctx).spec_device_links(), old(ctx).spec_device_links()),
        links_eq_off_level(
            final(ctx).spec_device_links(),
            old(ctx).spec_device_links(),
            level as int,
        ),
{
    let n: usize = ctx.device_links.len();
    if (pid as usize) >= n || level >= ctx.device_links[pid as usize].len() {
        return ;
    }
    let ghost pre0 = ctx.device_links@;
    let neighbors = &results[t].1;
    set_links_checked(&mut ctx.device_links, ctx.hnsw_m, pid, level, neighbors);
    proof {
        lemma_shape_eq_trans(ctx.device_links@, pre0, old(ctx).spec_device_links());
        lemma_off_level_from_point_update(ctx.device_links@, pre0, pid as int, level as int);
        assert(links_eq_off_level(pre0, old(ctx).spec_device_links(), level as int));
        lemma_off_level_trans(
            ctx.device_links@,
            pre0,
            old(ctx).spec_device_links(),
            level as int,
        );
    }
    let mut k: usize = 0;
    while k < neighbors.len()
        invariant
            k <= neighbors@.len(),
            ctx.wf(),
            ctx.spec_storage() == old(ctx).spec_storage(),
            ctx.spec_hnsw_m() == old(ctx).spec_hnsw_m(),
            ctx.spec_exact() == old(ctx).spec_exact(),
            ctx.spec_groups_count() == old(ctx).spec_groups_count(),
            links_shape_eq(ctx.device_links@, old(ctx).spec_device_links()),
            links_eq_off_level(ctx.device_links@, old(ctx).spec_device_links(), level as int),
            pid < ctx.device_links@.len(),
        decreases neighbors@.len() - k,
    {
        let nb = neighbors[k];
        let ghost pre1 = ctx.device_links@;
        if (nb as usize) < ctx.device_links.len() && level < ctx.device_links[nb as usize].len()
            && ctx.device_links.len() <= ctx.storage.len() && (pid as usize)
            < ctx.device_links.len() {
            try_add_link(
                &mut ctx.device_links,
                &ctx.storage,
                ctx.exact,
                ctx.hnsw_m,
                nb,
                pid,
                level,
            );
            proof {
                lemma_off_level_from_point_update(ctx.device_links@, pre1, nb as int, level as int);
            }
        }
        proof {
            lemma_shape_eq_trans(ctx.device_links@, pre1, old(ctx).spec_device_links());
            lemma_off_level_trans(
                ctx.device_links@,
                pre1,
                old(ctx).spec_device_links(),
                level as int,
            );
        }
        k += 1;
    }
}

/// Build the navigable graph with the hybrid algorithm: partition the ids
/// into batches, seed the first points sequentially, then extend the graph
/// level by level, strictly from the highest level down.  Any observed
/// cancellation aborts the whole attempt; a builder from an aborted attempt
/// must be discarded by the caller.
pub fn build_hnsw_on_gpu(
    gpu_insert_context: &mut GpuInsertContext,
    reference_graph: &GraphLayersBuilder,
    groups_count: usize,
    entry_points_num: usize,
    cpu_linked_points: usize,
    ids: Vec<u32>,
    stopped: &mut CancelToken,
) -> (r: OperationResult<GraphLayersBuilder>)
    requires
        old(gpu_insert_context).wf(),
        reference_graph.wf(),
        reference_graph.spec_num_points() == old(gpu_insert_context).spec_storage().spec_len(),
        reference_graph.spec_num_points() <= u32::MAX,
        reference_graph.spec_hnsw_m() == old(gpu_insert_context).spec_hnsw_m(),
        groups_count >= 1,
        entry_points_num >= 1,
        forall|j: int| 0 <= j < ids@.len() ==> #[trigger] ids@[j] < reference_graph.spec_num_points(),
    ensures
        match r {
            Ok(g) => {
                &&& g.wf()
                &&& g.spec_num_points() == reference_graph.spec_num_points()
                &&& g.spec_hnsw_m() == reference_graph.spec_hnsw_m()
                &&& (ids@.len() > 0 ==> g.spec_entry_points().len() >= 1)
                &&& forall|j: int|
                    0 <= j < ids@.len() ==> g.has_entry_at_least(
                        g.spec_level_of((#[trigger] ids@[j]) as int),
                    )
            },
            Err(e) => e == OperationError::Interrupted,
        },
        r is Err ==> final(stopped).is_stopped(),
        r is Ok && ids@.len() > 0 ==> !final(stopped).is_stopped(),
        ids@.len() == 0 ==> r is Ok && *final(gpu_insert_context) == *old(gpu_insert_context),
        old(stopped).never_trips() ==> r is Ok && *final(stopped) == *old(stopped),
{
    let ctx = gpu_insert_context;
    let num_vectors: usize = reference_graph.num_points();
    let hnsw_m: HnswM = reference_graph.hnsw_m();
    let m0: usize = hnsw_m.m0;
    let efc: usize = reference_graph.ef_construct();
    let ef: usize = if efc > m0 {
        efc
    } else {
        m0
    };
    // levels of the points to insert, and of every point for the builder
    let mut id_levels: Vec<usize> = Vec::new();
    let mut j: usize = 0;
    while j < ids.len()
        invariant
            j <= ids@.len(),
            id_levels@.len() == j,
            reference_graph.wf(),
            forall|t: int| 0 <= t < ids@.len() ==> #[trigger] ids@[t] < reference_graph.spec_num_points(),
            forall|t: int| 0 <= t < j ==> #[trigger] id_levels@[t] < usize::MAX,
            forall|t: int|
                0 <= t < j ==> #[trigger] id_levels@[t] == capped_level(
                    reference_graph.spec_level_of(ids@[t] as int),
                ),
        decreases ids@.len() - j,
    {
        let lvl = reference_graph.get_point_level(ids[j]);
        let capped: usize = if lvl == usize::MAX {
            usize::MAX - 1
        } else {
            lvl
        };
        id_levels.push(capped);
        j += 1;
    }
    let mut all_levels: Vec<usize> = Vec::new();
    let mut p: usize = 0;
    while p < num_vectors
        invariant
            p <= num_vectors,
            num_vectors == reference_graph.spec_num_points(),
            num_vectors <= u32::MAX,
            all_levels@.len() == p,
            reference_graph.wf(),
            forall|t: int| 0 <= t < p ==> #[trigger] all_levels@[t] < usize::MAX,
            forall|t: int|
                0 <= t < p ==> #[trigger] all_levels@[t] == capped_level(
                    reference_graph.spec_level_of(t),
                ),
        decreases num_vectors - p,
    {
        let lvl = reference_graph.get_point_level(p as u32);
        let capped: usize = if lvl == usize::MAX {
            usize::MAX - 1
        } else {
            lvl
        };
        all_levels.push(capped);
        p += 1;
    }
    let batched_points = BatchedPoints::new(&ids, &id_levels, groups_count);
    proof {
        let w = choose|w: Seq<int>|
            points_witnessed(batched_points.spec_points(), ids@, id_levels@, w);
        assert forall|t: int|
            0 <= t < batched_points.spec_points().len() implies (#[trigger] batched_points.spec_points()[t]).point_id
            < reference_graph.spec_num_points() by {
            assert(0 <= w[t] < ids@.len());
            assert(batched_points.spec_points()[t].point_id == ids@[w[t]]);
        }
        if ids@.len() > 0 {
            let cov = choose|cov: Seq<int>|
                covers_witnessed(batched_points.spec_points(), ids@, id_levels@, cov);
            assert(0 <= cov[0] < batched_points.spec_points().len());
        }
        if batched_points.spec_points().len() > 0 {
            assert(0 <= w[0] < ids@.len());
        }
    }
    let lc: usize = batched_points.levels_count();
    let mut graph_layers_builder = create_graph_layers_builder(
        &all_levels,
        hnsw_m,
        ef,
        entry_points_num,
    );
    proof {
        assert forall|j2: int|
            0 <= j2 < ids@.len() implies graph_layers_builder.spec_level_of(
            (#[trigger] ids@[j2]) as int,
        ) == id_levels@[j2] by {
            assert(graph_layers_builder.spec_level_of(ids@[j2] as int)
                == all_levels@[ids@[j2] as int]);
            assert(all_levels@[ids@[j2] as int] == capped_level(
                reference_graph.spec_level_of(ids@[j2] as int),
            ));
            assert(id_levels@[j2] == capped_level(reference_graph.spec_level_of(ids@[j2] as int)));
        }
        let w = choose|w: Seq<int>|
            points_witnessed(batched_points.spec_points(), ids@, id_levels@, w);
        assert forall|t: int|
            0 <= t < batched_points.spec_points().len() implies graph_layers_builder.spec_level_of(
            ((#[trigger] batched_points.spec_points()[t]).point_id) as int,
        ) == batched_points.spec_points()[t].level by {
            assert(0 <= w[t] < ids@.len());
            assert(batched_points.spec_points()[t].point_id == ids@[w[t]]);
            assert(batched_points.spec_points()[t].level == id_levels@[w[t]]);
            assert(graph_layers_builder.spec_level_of(ids@[w[t]] as int) == id_levels@[w[t]]);
        }
    }
    // sequential warm start: each insertion sees the graph the previous ones left
    let mut count: usize = 0;
    let mut i: usize = 0;
    let mut done: bool = false;
    let total: usize = batched_points.num_points();
    while i < total && !done
        invariant
            i <= total,
            total == batched_points.spec_points().len(),
            batched_points.wf(),
            forall|t: int|
                0 <= t < batched_points.spec_points().len() ==> (#[trigger] batched_points.spec_points()[t]).point_id
                    < reference_graph.spec_num_points(),
            ctx.wf(),
            ctx.spec_storage() == old(gpu_insert_context).spec_storage(),
            ctx.spec_hnsw_m() == old(gpu_insert_context).spec_hnsw_m(),
            ctx.spec_exact() == old(gpu_insert_context).spec_exact(),
            ctx.spec_groups_count() == old(gpu_insert_context).spec_groups_count(),
            graph_layers_builder.wf(),
            graph_layers_builder.spec_num_points() == reference_graph.spec_num_points(),
            graph_layers_builder.spec_hnsw_m() == hnsw_m,
            graph_layers_builder.spec_num_points() == ctx.spec_storage().spec_len(),
            count > 0 ==> graph_layers_builder.spec_entry_points().len() >= 1,
            count == i,
            done ==> count > 0,
            count > 0 ==> !stopped.is_stopped(),
            total > 0 ==> ids@.len() > 0,
            lc == batched_points.spec_levels_count(),
            forall|j2: int|
                0 <= j2 < ids@.len() ==> #[trigger] ids@[j2] < reference_graph.spec_num_points(),
            forall|j2: int|
                0 <= j2 < ids@.len() ==> graph_layers_builder.spec_level_of(
                    (#[trigger] ids@[j2]) as int,
                ) == id_levels@[j2],
            forall|t: int|
                0 <= t < total ==> graph_layers_builder.spec_level_of(
                    ((#[trigger] batched_points.spec_points()[t]).point_id) as int,
                ) == batched_points.spec_points()[t].level,
            count > 0 ==> graph_layers_builder.has_entry_at_least(lc as int - 1),
            old(stopped).never_trips() ==> *stopped == *old(stopped),
        decreases total - i,
    {
        if stopped.poll() {
            return Err(OperationError::Interrupted);
        }
        let pe = batched_points.point(i);
        let pid = pe.point_id;
        proof {
            assert(pe == batched_points.spec_points()[i as int]);
            assert(pe.point_id < reference_graph.spec_num_points());
        }
        let ghost gb_pre = graph_layers_builder;
        if (pid as usize) < graph_layers_builder.num_points() {
            let scorer = FilteredScorer::new(ctx.storage(), ctx.exact(), pid);
            graph_layers_builder.link_new_point(pid, scorer);
        }
        proof {
            assert forall|j2: int|
                0 <= j2 < ids@.len() implies graph_layers_builder.spec_level_of(
                (#[trigger] ids@[j2]) as int,
            ) == id_levels@[j2] by {
                assert(ids@[j2] < gb_pre.spec_num_points());
                assert(graph_layers_builder.spec_links()[ids@[j2] as int]@.len()
                    == gb_pre.spec_links()[ids@[j2] as int]@.len());
                assert(gb_pre.spec_level_of(ids@[j2] as int) == id_levels@[j2]);
            }
            assert forall|t: int|
                0 <= t < total implies graph_layers_builder.spec_level_of(
                ((#[trigger] batched_points.spec_points()[t]).point_id) as int,
            ) == batched_points.spec_points()[t].level by {
                let tid = batched_points.spec_points()[t].point_id;
                assert(tid < gb_pre.spec_num_points());
                assert(graph_layers_builder.spec_links()[tid as int]@.len()
                    == gb_pre.spec_links()[tid as int]@.len());
                assert(gb_pre.spec_level_of(tid as int) == batched_points.spec_points()[t].level);
            }
            if i == 0 {
                assert(batched_points.spec_points()[0].level == lc - 1);
                assert(gb_pre.spec_level_of(pid as int) == lc - 1);
                assert(graph_layers_builder.has_entry_at_least(lc as int - 1));
            } else {
                assert(gb_pre.has_entry_at_least(lc as int - 1));
                assert(graph_layers_builder.has_entry_at_least(lc as int - 1));
            }
        }
        count += 1;
        if count >= cpu_linked_points {
            done = true;
        }
        i += 1;
    }
    proof {
        if ids@.len() > 0 {
            assert(total > 0);
            assert(count > 0);
        }
    }
    let ghost gb_mid = graph_layers_builder;
    graph_layers_builder.fill_ready_list();
    proof {
        if count > 0 {
            lemma_entry_at_least_preserved(gb_mid, graph_layers_builder, lc as int - 1);
        }
        assert forall|j2: int|
            0 <= j2 < ids@.len() implies graph_layers_builder.spec_level_of(
            (#[trigger] ids@[j2]) as int,
        ) == id_levels@[j2] by {
            assert(ids@[j2] < gb_mid.spec_num_points());
            assert(graph_layers_builder.spec_links()[ids@[j2] as int]@.len()
                == gb_mid.spec_links()[ids@[j2] as int]@.len());
            assert(gb_mid.spec_level_of(ids@[j2] as int) == id_levels@[j2]);
        }
    }
    if !batched_points.has_remaining(count) {
        proof {
            if ids@.len() > 0 {
                assert forall|j2: int|
                    0 <= j2 < ids@.len() implies graph_layers_builder.spec_level_of(
                    (#[trigger] ids@[j2]) as int,
                ) < lc by {
                    assert(id_levels@[j2] < lc);
                }
                lemma_entries_cover_ids(graph_layers_builder, ids@, lc as int);
            }
        }
        return Ok(graph_layers_builder);
    }
    proof {
        if ids@.len() == 0 {
            let w = choose|w: Seq<int>|
                points_witnessed(batched_points.spec_points(), ids@, id_levels@, w);
            assert(batched_points.spec_points().len() > 0);
            assert(0 <= w[0] < ids@.len());
            assert(false);
        }
    }
    let remap = batched_points.remap();
    match ctx.init(&remap) {
        Ok(()) => {},
        Err(e) => {
            return Err(e);
        },
    }
    // extend level by level, strictly highest first
    let mut lvl: usize = batched_points.levels_count();
    while lvl > 0
        invariant
            batched_points.wf(),
            ctx.wf(),
            ctx.spec_storage() == old(gpu_insert_context).spec_storage(),
            ctx.spec_hnsw_m() == old(gpu_insert_context).spec_hnsw_m(),
            graph_layers_builder.wf(),
            graph_layers_builder.spec_num_points() == reference_graph.spec_num_points(),
            graph_layers_builder.spec_hnsw_m() == hnsw_m,
            graph_layers_builder.spec_num_points() == ctx.spec_storage().spec_len(),
            graph_layers_builder.spec_num_points() <= u32::MAX,
            graph_layers_builder.spec_entry_points().len() >= 1,
            hnsw_m == reference_graph.spec_hnsw_m(),
            reference_graph.spec_hnsw_m() == old(gpu_insert_context).spec_hnsw_m(),
            ctx.spec_groups_count() == old(gpu_insert_context).spec_groups_count(),
            ctx.spec_exact() == old(gpu_insert_context).spec_exact(),
            !stopped.is_stopped(),
            ids@.len() > 0,
            graph_layers_builder.has_entry_at_least(lc as int - 1),
            forall|j2: int|
                0 <= j2 < ids@.len() ==> #[trigger] ids@[j2] < reference_graph.spec_num_points(),
            forall|j2: int|
                0 <= j2 < ids@.len() ==> graph_layers_builder.spec_level_of(
                    (#[trigger] ids@[j2]) as int,
                ) == id_levels@[j2],
            old(stopped).never_trips() ==> *stopped == *old(stopped),
        decreases lvl,
    {
        let level: usize = lvl - 1;
        match ctx.upload_links(level, &graph_layers_builder, stopped) {
            Ok(()) => {},
            Err(e) => {
                return Err(e);
            },
        }
        let ghost dev1 = ctx.spec_device_links();
        proof {
            assert(links_shape_eq(dev1, graph_layers_builder.spec_links()));
        }
        match build_level_on_gpu(ctx, &batched_points, cpu_linked_points, level, stopped) {
            Ok(()) => {},
            Err(e) => {
                return Err(e);
            },
        }
        proof {
            lemma_shape_eq_trans(
                ctx.spec_device_links(),
                dev1,
                graph_layers_builder.spec_links(),
            );
        }
        let ghost gb2 = graph_layers_builder;
        match ctx.download_links(level, &mut graph_layers_builder, stopped) {
            Ok(()) => {},
            Err(e) => {
                return Err(e);
            },
        }
        proof {
            lemma_entry_at_least_preserved(gb2, graph_layers_builder, lc as int - 1);
            assert forall|j2: int|
                0 <= j2 < ids@.len() implies graph_layers_builder.spec_level_of(
                (#[trigger] ids@[j2]) as int,
            ) == id_levels@[j2] by {
                assert(ids@[j2] < gb2.spec_num_points());
                assert(graph_layers_builder.spec_links()[ids@[j2] as int]@.len()
                    == gb2.spec_links()[ids@[j2] as int]@.len());
                assert(gb2.spec_level_of(ids@[j2] as int) == id_levels@[j2]);
            }
        }
        lvl = level;
    }
    proof {
        assert forall|j2: int|
            0 <= j2 < ids@.len() implies graph_layers_builder.spec_level_of(
            (#[trigger] ids@[j2]) as int,
        ) < lc by {
            assert(id_levels@[j2] < lc);
        }
        lemma_entries_cover_ids(graph_layers_builder, ids@, lc as int);
    }
    Ok(graph_layers_builder)
}

} // verus!
