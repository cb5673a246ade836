use hnsw_build::HnswM;
use hnsw_build::builder::{FilteredScorer, GraphLayersBuilder, create_graph_layers_builder};
use hnsw_build::cancel::CancelToken;
use hnsw_build::errors::OperationError;
use hnsw_build::gpu::{GPU_MAX_VISITED_FLAGS_FACTOR, GpuInsertContext, build_hnsw_on_gpu};
use hnsw_build::num_rayon_threads;
use hnsw_build::vectors::GpuVectorStorage;

struct Lcg(u64);

impl Lcg {
    fn next(&mut self) -> u64 {
        self.0 = self
            .0
            .wrapping_mul(6364136223846793005)
            .wrapping_add(1442695040888963407);
        self.0 >> 16
    }
}

fn make_vectors(num: usize, dim: usize, seed: u64) -> Vec<Vec<i32>> {
    let mut rng = Lcg(seed);
    let mut out = Vec::new();
    for _ in 0..num {
        let mut v = Vec::new();
        for _ in 0..dim {
            v.push((rng.next() % 1024) as i32 - 512);
        }
        out.push(v);
    }
    out
}

fn make_levels(num: usize, seed: u64) -> Vec<usize> {
    let mut rng = Lcg(seed);
    let mut out = Vec::new();
    for _ in 0..num {
        let mut level = 0usize;
        while level < 4 && rng.next() % 4 == 0 {
            level += 1;
        }
        out.push(level);
    }
    out
}

fn dist(a: &[i32], b: &[i32]) -> u64 {
    let mut acc: u64 = 0;
    for i in 0..a.len() {
        let d = a[i] as i64 - b[i] as i64;
        acc += (d * d) as u64;
    }
    acc
}

fn build_graph(
    num_vectors: usize,
    dim: usize,
    hnsw_m: HnswM,
    ef: usize,
    groups_count: usize,
    cpu_linked_points: usize,
    exact: bool,
) -> GraphLayersBuilder {
    let vectors = make_vectors(num_vectors, dim, 42);
    let levels = make_levels(num_vectors, 7);
    let storage = GpuVectorStorage::new(dim, vectors).unwrap();
    let reference = create_graph_layers_builder(&levels, hnsw_m, ef, 1);
    let mut ctx = GpuInsertContext::new(
        &storage,
        groups_count,
        hnsw_m,
        ef,
        exact,
        1,
        GPU_MAX_VISITED_FLAGS_FACTOR,
    )
    .unwrap();
    let ids: Vec<u32> = (0..num_vectors as u32).collect();
    let mut stopped = CancelToken::new();
    build_hnsw_on_gpu(
        &mut ctx,
        &reference,
        groups_count,
        1,
        cpu_linked_points,
        ids,
        &mut stopped,
    )
    .unwrap()
}

/// Greedy search over a finished graph, from its entry point down to level 0,
/// returning the `top` nearest corpus ids to `query`.
fn search_graph(graph: &GraphLayersBuilder, vectors: &[Vec<i32>], query: &[i32], ef: usize, top: usize) -> Vec<u32> {
    let links = graph.links_layers();
    let entries = graph.entry_points();
    assert!(!entries.is_empty());
    let mut entry = entries[0];
    for &e in entries.iter() {
        if links[e as usize].len() > links[entry as usize].len() {
            entry = e;
        }
    }
    let top_level = links[entry as usize].len() - 1;
    let mut cur = entry;
    for level in (1..=top_level).rev() {
        loop {
            let mut best = cur;
            let mut best_d = dist(query, &vectors[cur as usize]);
            for &nb in &links[cur as usize][level] {
                let d = dist(query, &vectors[nb as usize]);
                if d < best_d {
                    best = nb;
                    best_d = d;
                }
            }
            if best == cur {
                break;
            }
            cur = best;
        }
    }
    // ef-search on level 0
    let n = links.len();
    let mut visited = vec![false; n];
    let mut pool: Vec<(u64, u32)> = Vec::new();
    let mut expanded: Vec<bool> = Vec::new();
    visited[cur as usize] = true;
    pool.push((dist(query, &vectors[cur as usize]), cur));
    expanded.push(false);
    loop {
        let mut best: Option<usize> = None;
        for k in 0..pool.len() {
            if !expanded[k] && (best.is_none() || pool[k] < pool[best.unwrap()]) {
                best = Some(k);
            }
        }
        let Some(b) = best else { break };
        let better = pool.iter().filter(|c| **c < pool[b]).count();
        if better >= ef {
            break;
        }
        expanded[b] = true;
        let id = pool[b].1;
        for &nb in &links[id as usize][0] {
            if !visited[nb as usize] {
                visited[nb as usize] = true;
                pool.push((dist(query, &vectors[nb as usize]), nb));
                expanded.push(false);
            }
        }
    }
    pool.sort();
    pool.into_iter().take(top).map(|c| c.1).collect()
}

fn brute_force(vectors: &[Vec<i32>], query: &[i32], top: usize) -> Vec<u32> {
    let mut scored: Vec<(u64, u32)> = vectors
        .iter()
        .enumerate()
        .map(|(i, v)| (dist(query, v), i as u32))
        .collect();
    scored.sort();
    scored.into_iter().take(top).map(|c| c.1).collect()
}

fn check_quality(exact: bool) {
    let num_vectors = 1024;
    let dim = 64;
    let hnsw_m = HnswM::new2(8);
    let ef = 32;
    let groups_count = 4;
    let searches_count = 20;
    let top = 10;
    let min_cpu_linked_points_count = 64;

    let graph = build_graph(
        num_vectors,
        dim,
        hnsw_m,
        ef,
        groups_count,
        min_cpu_linked_points_count,
        exact,
    );
    let vectors = make_vectors(num_vectors, dim, 42);
    let queries = make_vectors(searches_count, dim, 99);
    let mut hits = 0usize;
    for q in &queries {
        let found = search_graph(&graph, &vectors, q, ef, top);
        let truth = brute_force(&vectors, q, top);
        for id in &found {
            if truth.contains(id) {
                hits += 1;
            }
        }
    }
    let total = searches_count * top;
    // recall@10 must reach 0.8
    assert!(hits * 10 >= total * 8, "recall too low: {hits}/{total}");
}

#[test]
fn test_gpu_hnsw_equivalency() {
    let num_vectors = 1024;
    let dim = 64;
    let hnsw_m = HnswM::new2(8);
    let ef = 32;
    let min_cpu_linked_points_count = 64;

    let a = build_graph(num_vectors, dim, hnsw_m, ef, 1, min_cpu_linked_points_count, true);
    let b = build_graph(num_vectors, dim, hnsw_m, ef, 1, min_cpu_linked_points_count, true);
    assert_eq!(a.links_layers(), b.links_layers());
    assert_eq!(a.entry_points(), b.entry_points());
}

#[test]
fn test_gpu_hnsw_quality_exact() {
    check_quality(true);
}

#[test]
fn test_gpu_hnsw_quality() {
    check_quality(false);
}

#[test]
fn repeated_parallel_builds_are_identical() {
    let hnsw_m = HnswM::new2(8);
    let a = build_graph(256, 16, hnsw_m, 32, 4, 32, true);
    let b = build_graph(256, 16, hnsw_m, 32, 4, 32, true);
    assert_eq!(a.links_layers(), b.links_layers());
}

#[test]
fn neighbor_counts_bounded_and_no_self_loops() {
    let hnsw_m = HnswM::new(8, 16);
    let graph = build_graph(512, 16, hnsw_m, 32, 4, 32, true);
    let links = graph.links_layers();
    for (p, rows) in links.iter().enumerate() {
        for (level, list) in rows.iter().enumerate() {
            let bound = if level == 0 { hnsw_m.m0 } else { hnsw_m.m };
            assert!(list.len() <= bound);
            for &nb in list {
                assert_ne!(nb as usize, p);
                assert!((nb as usize) < links.len());
            }
        }
    }
}

#[test]
fn entry_points_non_empty_for_non_trivial_build() {
    let graph = build_graph(64, 8, HnswM::new2(4), 16, 2, 8, true);
    assert!(graph.entry_points_count() >= 1);
}

#[test]
fn cancellation_during_accelerated_phase_interrupts() {
    let num_vectors = 256;
    let dim = 8;
    let hnsw_m = HnswM::new2(4);
    let ef = 16;
    let vectors = make_vectors(num_vectors, dim, 42);
    let levels = make_levels(num_vectors, 7);
    let storage = GpuVectorStorage::new(dim, vectors).unwrap();
    let reference = create_graph_layers_builder(&levels, hnsw_m, ef, 1);
    let mut ctx =
        GpuInsertContext::new(&storage, 2, hnsw_m, ef, true, 1, GPU_MAX_VISITED_FLAGS_FACTOR)
            .unwrap();
    let ids: Vec<u32> = (0..num_vectors as u32).collect();
    // trips after the 32 sequential polls, i.e. during the accelerated phase
    let mut stopped = CancelToken::trip_after(40);
    let r = build_hnsw_on_gpu(&mut ctx, &reference, 2, 1, 32, ids, &mut stopped);
    assert!(matches!(r, Err(OperationError::Interrupted)));
}

#[test]
fn context_creation_fails_without_resources() {
    let storage = GpuVectorStorage::new(4, vec![vec![0, 1, 2, 3]]).unwrap();
    let r = GpuInsertContext::new(&storage, 0, HnswM::new2(4), 16, true, 1, 32);
    assert!(matches!(r, Err(OperationError::ResourceCreationFailure)));
    let r2 = GpuInsertContext::new(&storage, 2, HnswM::new2(4), 16, true, 3, 2);
    assert!(matches!(r2, Err(OperationError::ResourceCreationFailure)));
}

#[test]
fn storage_rejects_mismatched_dimension() {
    assert!(GpuVectorStorage::new(3, vec![vec![1, 2]]).is_none());
    assert!(GpuVectorStorage::new(2, vec![vec![1, 2], vec![3, 4]]).is_some());
    assert!(GpuVectorStorage::new(1, vec![vec![2_000_000]]).is_none());
}

#[test]
fn hnsw_m_level_bounds() {
    let m = HnswM::new(8, 16);
    assert_eq!(m.level_m(0), 16);
    assert_eq!(m.level_m(1), 8);
    assert_eq!(m.level_m(5), 8);
    let m2 = HnswM::new2(8);
    assert_eq!(m2.m0, 16);
    assert_eq!(m2.m, 8);
}

#[test]
fn rayon_thread_count_rules() {
    assert_eq!(num_rayon_threads(6, 16, 8), 6);
    assert_eq!(num_rayon_threads(0, 16, 8), 8);
    assert_eq!(num_rayon_threads(0, 4, 8), 4);
    assert_eq!(num_rayon_threads(0, 0, 8), 1);
}

#[test]
fn sequential_scorer_scores_by_distance() {
    let storage = GpuVectorStorage::new(2, vec![vec![0, 0], vec![3, 4], vec![1, 1]]).unwrap();
    let scorer = FilteredScorer::new(&storage, true, 0);
    assert_eq!(scorer.query_id, 0);
    assert_eq!(storage.score(true, 0, 1), 25);
    assert_eq!(storage.score(true, 0, 2), 2);
    // quantized mode coarsens each squared component difference
    assert_eq!(storage.score(false, 0, 1), 9 / 16 + 16 / 16);
}

#[test]
fn entry_point_reaches_the_top_level() {
    let graph = build_graph(256, 16, HnswM::new2(4), 16, 2, 16, true);
    let links = graph.links_layers();
    let top_point_level = links.iter().map(|rows| rows.len() - 1).max().unwrap();
    let top_entry_level = graph
        .entry_points()
        .iter()
        .map(|&e| links[e as usize].len() - 1)
        .max()
        .unwrap();
    assert_eq!(top_entry_level, top_point_level);
}
