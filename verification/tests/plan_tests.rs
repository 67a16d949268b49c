use std::convert::TryFrom;
use fast_matmul::dynamic_peeling::{DynamicPeeling, Region};
use fast_matmul::matmul::{
    child_modes, faer_uses_parallelism, next_limit, plan_step, stop_recursing, thread_count_from_vars,
    vec_block_ranges, BaseMatMul, BlockRange, CpShape, MatMulStep, RecursionLimit, available_threads,
    thread_pool_step, ThreadPoolAction,
};
use fast_matmul::matmul::at_least_one;
use fast_matmul::mkl::{dgemm_step, mkl_thread_count, mkl_thread_request, DgemmError, DgemmStep};
use fast_matmul::parallelism_mode::ParallelismMode;

const STRASSEN: CpShape = CpShape { m: 2, n: 2, p: 2, rank: 7 };

#[test]
fn limits_go_down_one_level() {
    assert_eq!(next_limit(RecursionLimit::Depth(3)), RecursionLimit::Depth(2));
    assert_eq!(next_limit(RecursionLimit::Depth(0)), RecursionLimit::Depth(0));
    assert_eq!(next_limit(RecursionLimit::Cutoff(64)), RecursionLimit::Cutoff(64));
}

#[test]
fn recursion_stops_at_the_limit() {
    assert!(stop_recursing(STRASSEN, 8, 8, 8, RecursionLimit::Depth(0)));
    assert!(!stop_recursing(STRASSEN, 8, 8, 8, RecursionLimit::Depth(1)));
    assert!(stop_recursing(STRASSEN, 1, 8, 8, RecursionLimit::Depth(3)));
    assert!(stop_recursing(STRASSEN, 8, 8, 8, RecursionLimit::Cutoff(8)));
    assert!(!stop_recursing(STRASSEN, 8, 8, 8, RecursionLimit::Cutoff(4)));
    assert!(stop_recursing(STRASSEN, 9, 4, 9, RecursionLimit::Cutoff(4)));
}

#[test]
fn plan_of_each_kind() {
    let seq = ParallelismMode::Sequential;
    assert_eq!(
        plan_step(STRASSEN, 8, 8, 8, seq, RecursionLimit::Depth(0), 4),
        MatMulStep::Base { multithreaded: false }
    );
    assert_eq!(
        plan_step(STRASSEN, 8, 8, 8, ParallelismMode::Dfs, RecursionLimit::Cutoff(8), 1),
        MatMulStep::Base { multithreaded: true }
    );
    assert_eq!(
        plan_step(STRASSEN, 4, 4, 4, ParallelismMode::Hybrid, RecursionLimit::Depth(0), 4),
        MatMulStep::Base { multithreaded: true }
    );
    assert_eq!(
        plan_step(STRASSEN, 4, 4, 4, ParallelismMode::Hybrid, RecursionLimit::Depth(0), 1),
        MatMulStep::Base { multithreaded: false }
    );
    assert_eq!(plan_step(STRASSEN, 2, 2, 2, seq, RecursionLimit::Cutoff(1), 1), MatMulStep::CpProduct);
    assert_eq!(plan_step(STRASSEN, 5, 4, 4, seq, RecursionLimit::Cutoff(1), 1), MatMulStep::Peel);
    assert_eq!(
        plan_step(STRASSEN, 8, 4, 6, seq, RecursionLimit::Depth(2), 1),
        MatMulStep::Split { m_block: 4, n_block: 2, p_block: 3, next_limit: RecursionLimit::Depth(1) }
    );
}

#[test]
fn block_ranges_are_row_major() {
    let blocks = vec_block_ranges(2, 3, 4, 5);
    assert_eq!(blocks.len(), 6);
    assert_eq!(blocks[0], BlockRange { row_start: 0, row_end: 4, col_start: 0, col_end: 5 });
    assert_eq!(blocks[2], BlockRange { row_start: 0, row_end: 4, col_start: 10, col_end: 15 });
    assert_eq!(blocks[3], BlockRange { row_start: 4, row_end: 8, col_start: 0, col_end: 5 });
    assert_eq!(blocks[5], BlockRange { row_start: 4, row_end: 8, col_start: 10, col_end: 15 });
    // the blocks tile the 8 x 15 matrix
    let mut hits = vec![0; 8 * 15];
    for b in &blocks {
        for x in b.row_start..b.row_end {
            for y in b.col_start..b.col_end {
                hits[x * 15 + y] += 1;
            }
        }
    }
    assert!(hits.iter().all(|&h| h == 1));
}

#[test]
fn child_modes_of_each_mode() {
    let limit = RecursionLimit::Depth(1);
    assert_eq!(child_modes(ParallelismMode::Dfs, 7, limit, 4), vec![ParallelismMode::Dfs; 7]);
    assert_eq!(child_modes(ParallelismMode::Bfs, 7, limit, 4), vec![ParallelismMode::Bfs; 7]);
    assert_eq!(child_modes(ParallelismMode::Sequential, 3, limit, 4), vec![ParallelismMode::Sequential; 3]);
    // 7^1 = 7 tasks on 4 threads: 4 of them breadth-first
    let modes = child_modes(ParallelismMode::Hybrid, 7, limit, 4);
    let bfs = modes.iter().filter(|m| **m == ParallelismMode::Bfs).count();
    assert_eq!(bfs, 4);
    assert_eq!(modes[3], ParallelismMode::Bfs);
    assert_eq!(modes[4], ParallelismMode::Dfs);
    // 7^2 = 49 tasks on 16 threads: 48 / 7 = 6 children breadth-first
    let modes = child_modes(ParallelismMode::Hybrid, 7, RecursionLimit::Depth(2), 16);
    assert_eq!(modes.iter().filter(|m| **m == ParallelismMode::Bfs).count(), 6);
    // one thread: 7 is a multiple of 1, so all 7 children run breadth-first
    let modes = child_modes(ParallelismMode::Hybrid, 7, RecursionLimit::Depth(1), 1);
    assert_eq!(modes, vec![ParallelismMode::Bfs; 7]);
}

#[test]
fn peeling_regions() {
    let peeling = DynamicPeeling::new(
        STRASSEN,
        5,
        7,
        3,
        ParallelismMode::Bfs,
        BaseMatMul::Faer,
        RecursionLimit::Cutoff(1),
    );
    assert_eq!((peeling.core_m, peeling.core_n, peeling.core_p), (4, 6, 2));
    assert_eq!((peeling.extra_m, peeling.extra_n, peeling.extra_p), (1, 1, 1));
    assert!(!peeling.multithreaded);
    assert_eq!(
        peeling.peel_core(),
        Some(Region { row_start: 0, row_end: 4, col_start: 0, col_end: 2, inner_start: 0, inner_end: 6, accumulate: false })
    );
    assert_eq!(
        peeling.correct_inner_dimension(),
        Some(Region { row_start: 0, row_end: 4, col_start: 0, col_end: 2, inner_start: 6, inner_end: 7, accumulate: true })
    );
    assert_eq!(
        peeling.correct_right_columns(),
        Some(Region { row_start: 0, row_end: 5, col_start: 2, col_end: 3, inner_start: 0, inner_end: 7, accumulate: false })
    );
    assert_eq!(
        peeling.correct_bottom_rows(),
        Some(Region { row_start: 4, row_end: 5, col_start: 0, col_end: 2, inner_start: 0, inner_end: 7, accumulate: false })
    );
    let even = DynamicPeeling::new(STRASSEN, 4, 4, 4, ParallelismMode::Hybrid, BaseMatMul::Dgemm, RecursionLimit::Depth(1));
    assert!(even.multithreaded);
    assert_eq!(even.correct_inner_dimension(), None);
    assert_eq!(even.correct_right_columns(), None);
    assert_eq!(even.correct_bottom_rows(), None);
}

#[test]
fn faer_parallel_threshold() {
    assert!(faer_uses_parallelism(true, 256, 256, 256));
    assert!(!faer_uses_parallelism(true, 255, 256, 256));
    assert!(!faer_uses_parallelism(false, 512, 512, 512));
}

#[test]
fn thread_count_takes_the_first_valid_variable() {
    let vars = vec![None, Some("abc".to_string()), Some(" 8".to_string()), Some("+12".to_string()), Some("3".to_string())];
    assert_eq!(thread_count_from_vars(&vars), Some(12));
    assert_eq!(thread_count_from_vars(&vec![None, None]), None);
    assert_eq!(thread_count_from_vars(&vec![Some("18446744073709551616".to_string()), Some("2".to_string())]), Some(2));
    assert!(available_threads() >= 1);
}

#[test]
fn mkl_thread_settings() {
    assert_eq!(mkl_thread_count(1, 16), 1);
    assert_eq!(mkl_thread_count(0, 16), 16);
    assert_eq!(mkl_thread_count(-3, 16), 16);
    assert_eq!(mkl_thread_request(true), 0);
    assert_eq!(mkl_thread_request(false), 1);
}

#[test]
fn parallelism_mode_codes() {
    assert_eq!(ParallelismMode::try_from(0), Ok(ParallelismMode::Dfs));
    assert_eq!(ParallelismMode::try_from(1), Ok(ParallelismMode::Bfs));
    assert_eq!(ParallelismMode::try_from(2), Ok(ParallelismMode::Hybrid));
    assert_eq!(ParallelismMode::try_from(3), Ok(ParallelismMode::Sequential));
    assert_eq!(
        ParallelismMode::try_from(7),
        Err("Invalid parallelism mode: 7. Must be 0 (Dfs), 1 (Bfs), 2 (Hybrid), or 3 (Sequential).".to_string())
    );
    assert_eq!(
        ParallelismMode::try_from(-2147483648),
        Err("Invalid parallelism mode: -2147483648. Must be 0 (Dfs), 1 (Bfs), 2 (Hybrid), or 3 (Sequential).".to_string())
    );
    assert_eq!(BaseMatMul::try_from(0), Ok(BaseMatMul::Faer));
    assert_eq!(BaseMatMul::try_from(1), Ok(BaseMatMul::Dgemm));
    assert_eq!(
        BaseMatMul::try_from(-1),
        Err("Invalid base matmul choice: -1. Must be 0 (Faer) or 1 (Dgemm).".to_string())
    );
    assert_eq!(
        BaseMatMul::try_from(42),
        Err("Invalid base matmul choice: 42. Must be 0 (Faer) or 1 (Dgemm).".to_string())
    );
}

/// Integer `C = A * B` computed region by region as a peeling plans it.
fn multiply_by_peeling(a: &[Vec<i64>], b: &[Vec<i64>], peeling: &DynamicPeeling) -> Vec<Vec<i64>> {
    let mut c = vec![vec![0i64; peeling.p]; peeling.m];
    let regions = [
        peeling.peel_core(),
        peeling.correct_inner_dimension(),
        peeling.correct_right_columns(),
        peeling.correct_bottom_rows(),
    ];
    for region in regions.iter().flatten() {
        for i in region.row_start..region.row_end {
            for j in region.col_start..region.col_end {
                let sum: i64 = (region.inner_start..region.inner_end).map(|k| a[i][k] * b[k][j]).sum();
                if region.accumulate {
                    c[i][j] += sum;
                } else {
                    c[i][j] = sum;
                }
            }
        }
    }
    c
}

#[test]
fn peeling_computes_the_product() {
    let shapes = [CpShape { m: 2, n: 2, p: 2, rank: 7 }, CpShape { m: 3, n: 2, p: 2, rank: 11 }];
    for shape in shapes {
        for &(m, n, p) in &[(5, 7, 3), (4, 4, 4), (7, 5, 9), (6, 3, 1), (1, 1, 1)] {
            let a: Vec<Vec<i64>> = (0..m).map(|i| (0..n).map(|k| ((i * 7 + k * 3) % 11) as i64 - 5).collect()).collect();
            let b: Vec<Vec<i64>> = (0..n).map(|k| (0..p).map(|j| ((k * 5 + j * 2) % 13) as i64 - 6).collect()).collect();
            let peeling = DynamicPeeling::new(shape, m, n, p, ParallelismMode::Dfs, BaseMatMul::Faer, RecursionLimit::Depth(2));
            let c = multiply_by_peeling(&a, &b, &peeling);
            for i in 0..m {
                for j in 0..p {
                    let expected: i64 = (0..n).map(|k| a[i][k] * b[k][j]).sum();
                    assert_eq!(c[i][j], expected);
                }
            }
        }
    }
}

#[test]
fn hybrid_children_never_exceed_the_rank() {
    for rank in 1..9usize {
        for level in 0..4usize {
            for threads in [0usize, 1, 2, 3, 7, 16, 64] {
                let modes = child_modes(ParallelismMode::Hybrid, rank, RecursionLimit::Depth(level), threads);
                assert_eq!(modes.len(), rank);
                let bfs = modes.iter().filter(|m| **m == ParallelismMode::Bfs).count();
                assert!(bfs <= rank);
                // the breadth-first children come first
                assert!(modes[..bfs].iter().all(|m| *m == ParallelismMode::Bfs));
                assert!(modes[bfs..].iter().all(|m| *m == ParallelismMode::Dfs));
            }
        }
    }
}

#[test]
fn split_steps_shrink_the_problem() {
    let mut dims = (32usize, 16usize, 8usize);
    let mut limit = RecursionLimit::Cutoff(1);
    let mut steps = 0;
    while let MatMulStep::Split { m_block, n_block, p_block, next_limit } =
        plan_step(STRASSEN, dims.0, dims.1, dims.2, ParallelismMode::Sequential, limit, 1)
    {
        assert_eq!((m_block * 2, n_block * 2, p_block * 2), dims);
        dims = (m_block, n_block, p_block);
        limit = next_limit;
        steps += 1;
    }
    // (32, 16, 8) -> (16, 8, 4) -> (8, 4, 2) -> (4, 2, 1), where p < 2 stops the recursion
    assert_eq!(steps, 3);
    assert_eq!(dims, (4, 2, 1));
}

#[test]
fn thread_counts_are_at_least_one() {
    assert_eq!(at_least_one(0), 1);
    assert_eq!(at_least_one(1), 1);
    assert_eq!(at_least_one(12), 12);
}

#[test]
fn thread_pool_is_configured_once() {
    let vars = vec![None, Some("6".to_string()), None, None];
    assert_eq!(thread_pool_step(false, &vars), (true, ThreadPoolAction::BuildGlobal(6)));
    assert_eq!(thread_pool_step(true, &vars), (true, ThreadPoolAction::Nothing));
    let unset = vec![None, None, None, None];
    assert_eq!(thread_pool_step(false, &unset), (true, ThreadPoolAction::Nothing));
}

#[test]
fn dgemm_steps() {
    let unit = (1isize, 1isize, 1isize);
    assert_eq!(dgemm_step(0, 3, 4, false, unit, (0, 0, 0)), Ok(DgemmStep::ZeroFill));
    assert_eq!(dgemm_step(2, 0, 4, true, (5, 5, 5), (0, 0, 0)), Ok(DgemmStep::Nothing));
    assert_eq!(
        dgemm_step(2, 3, 4, true, unit, (2, 3, 2)),
        Ok(DgemmStep::Call { m: 2, n: 4, k: 3, lda: 2, ldb: 3, ldc: 2, accumulate: true })
    );
    assert_eq!(dgemm_step(2, 3, 4, false, (1, 2, 1), (2, 3, 2)), Err(DgemmError::BNotColumnMajor));
    assert_eq!(dgemm_step(1usize << 31, 3, 4, false, unit, (2, 3, 2)), Err(DgemmError::MTooLarge));
    assert_eq!(dgemm_step(2, 3, 4, false, unit, (2, 3, 1isize << 31)), Err(DgemmError::LdcTooLarge));
}
