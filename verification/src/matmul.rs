//! The decisions of the recursive CP-decomposition multiplication: when to stop
//! recursing, how to split the operands into blocks, and how the work is spread
//! over threads. The floating-point arithmetic itself is carried out by the caller.
use crate::text::{parse_usize, parse_usize_spec};
use vstd::arithmetic::div_mod::{
    lemma_fundamental_div_mod, lemma_fundamental_div_mod_converse, lemma_mod_multiples_basic,
};
use vstd::arithmetic::mul::lemma_mul_is_commutative;
use vstd::prelude::*;

pub use crate::parallelism_mode::{BaseMatMul, ParallelismMode};

verus! {

/// Controls the recursion behavior of the CP decomposition matrix multiplication.
#[derive(Debug, Clone, Copy, PartialEq, Eq, Structural)]
pub enum RecursionLimit {
    /// Recurse up to a fixed number of levels, without limiting the size of the matrix.
    ///
    /// When the depth reaches `0`, the algorithm stops recursing and invokes the base matrix multiplication.
    Depth(usize),
    /// Recurse until any matrix dimension (m, n, or p) is less than or equal to the specified cutoff size.
    ///
    /// The algorithm recurses potentially to the last recursion child (no level limit), as long as
    /// the matrix dimensions are strictly greater than the cutoff size.
    Cutoff(usize),
}

/// The shape `<m, n, p>` of the base multiplication that a CP decomposition of rank `rank`
/// computes: an `m x n` matrix times an `n x p` matrix.
#[derive(Debug, Clone, Copy, PartialEq, Eq, Structural)]
pub struct CpShape {
    pub m: usize,
    pub n: usize,
    pub p: usize,
    pub rank: usize,
}

impl CpShape {
    /// The base dimensions are positive, as they are for every decomposition that loads.
    pub open spec fn wf(self) -> bool {
        self.m >= 1 && self.n >= 1 && self.p >= 1
    }
}

/// One step of the recursive multiplication `C = A * B` with `A` of size `m x n`
/// and `B` of size `n x p`.
#[derive(Debug, Clone, Copy, PartialEq, Eq, Structural)]
pub enum MatMulStep {
    /// Multiply with the base (classical) multiplication, multithreaded or not.
    Base { multithreaded: bool },
    /// The operands have exactly the base shape: apply the CP formula entrywise.
    CpProduct,
    /// Some dimension is not a multiple of the base shape: peel off the boundary
    /// (see `DynamicPeeling`).
    Peel,
    /// Split the operands into a grid of blocks of the given sizes and recurse on the
    /// `rank` block products with the given limit.
    Split { m_block: usize, n_block: usize, p_block: usize, next_limit: RecursionLimit },
}

/// Whether the recursion stops at dimensions `m x n x p`.
pub open spec fn stop_recursing_spec(
    shape: CpShape,
    m: int,
    n: int,
    p: int,
    limit: RecursionLimit,
) -> bool {
    let below = m < shape.m || n < shape.n || p < shape.p;
    match limit {
        RecursionLimit::Depth(depth) => depth == 0 || below,
        RecursionLimit::Cutoff(cutoff) => below || m <= cutoff || n <= cutoff || p <= cutoff,
    }
}

/// Whether a leaf (base) multiplication runs multithreaded in `mode`, with `threads`
/// threads available.
pub open spec fn leaf_multithreaded_spec(mode: ParallelismMode, threads: int) -> bool {
    match mode {
        ParallelismMode::Dfs => true,
        ParallelismMode::Bfs => false,
        ParallelismMode::Sequential => false,
        ParallelismMode::Hybrid => threads > 1,
    }
}

/// The limit one recursion level further down.
pub open spec fn next_limit_spec(limit: RecursionLimit) -> RecursionLimit {
    match limit {
        RecursionLimit::Depth(depth) => RecursionLimit::Depth(
            if depth == 0 { 0 } else { (depth - 1) as usize },
        ),
        RecursionLimit::Cutoff(cutoff) => RecursionLimit::Cutoff(cutoff),
    }
}

/// The step taken for `m x n` times `n x p`.
pub open spec fn plan_spec(
    shape: CpShape,
    m: int,
    n: int,
    p: int,
    mode: ParallelismMode,
    limit: RecursionLimit,
    threads: int,
) -> MatMulStep {
    if stop_recursing_spec(shape, m, n, p, limit) {
        MatMulStep::Base { multithreaded: leaf_multithreaded_spec(mode, threads) }
    } else if m == shape.m && n == shape.n && p == shape.p {
        MatMulStep::CpProduct
    } else if m % (shape.m as int) > 0 || n % (shape.n as int) > 0 || p % (shape.p as int) > 0 {
        MatMulStep::Peel
    } else {
        MatMulStep::Split {
            m_block: (m / (shape.m as int)) as usize,
            n_block: (n / (shape.n as int)) as usize,
            p_block: (p / (shape.p as int)) as usize,
            next_limit: next_limit_spec(limit),
        }
    }
}

/// The limit for the recursive calls one level further down.
pub fn next_limit(limit: RecursionLimit) -> (next: RecursionLimit)
    ensures
        next == next_limit_spec(limit),
{
    match limit {
        RecursionLimit::Depth(depth) => RecursionLimit::Depth(depth.saturating_sub(1)),
        RecursionLimit::Cutoff(cutoff) => RecursionLimit::Cutoff(cutoff),
    }
}

/// Whether the recursion stops for `m x n` times `n x p` and falls back to the base
/// multiplication.
pub fn stop_recursing(shape: CpShape, m: usize, n: usize, p: usize, limit: RecursionLimit) -> (stop:
    bool)
    ensures
        stop == stop_recursing_spec(shape, m as int, n as int, p as int, limit),
{
    match limit {
        RecursionLimit::Depth(depth) => depth == 0 || m < shape.m || n < shape.n || p < shape.p,
        RecursionLimit::Cutoff(cutoff) => m < shape.m || n < shape.n || p < shape.p || m <= cutoff
            || n <= cutoff || p <= cutoff,
    }
}

/// Decides the next step of the recursive multiplication `C = A * B`, `A` being `m x n`
/// and `B` being `n x p`, given the number of threads available to the current pool
/// (only the hybrid mode looks at it).
///
/// The hybrid mode together with a cutoff limit is refused by the caller (it panics),
/// so it is left out here; so is a base shape with a zero dimension where the step would
/// divide by it.
pub fn plan_step(
    shape: CpShape,
    m: usize,
    n: usize,
    p: usize,
    mode: ParallelismMode,
    limit: RecursionLimit,
    threads: usize,
) -> (step: MatMulStep)
    requires
        shape.wf() || stop_recursing_spec(shape, m as int, n as int, p as int, limit) || (m
            == shape.m && n == shape.n && p == shape.p),
        !(mode == ParallelismMode::Hybrid && limit is Cutoff),
    ensures
        step == plan_spec(shape, m as int, n as int, p as int, mode, limit, threads as int),
        step is CpProduct ==> m == shape.m && n == shape.n && p == shape.p,
{
    if stop_recursing(shape, m, n, p, limit) {
        let multithreaded = match mode {
            ParallelismMode::Dfs => true,
            ParallelismMode::Bfs => false,
            ParallelismMode::Sequential => false,
            ParallelismMode::Hybrid => threads > 1,
        };
        return MatMulStep::Base { multithreaded };
    }
    if m == shape.m && n == shape.n && p == shape.p {
        return MatMulStep::CpProduct;
    }
    let extra_m = m % shape.m;
    let extra_n = n % shape.n;
    let extra_p = p % shape.p;
    if extra_m > 0 || extra_n > 0 || extra_p > 0 {
        return MatMulStep::Peel;
    }
    MatMulStep::Split {
        m_block: m / shape.m,
        n_block: n / shape.n,
        p_block: p / shape.p,
        next_limit: next_limit(limit),
    }
}

/// What each step is for: the recursion stops (a base multiplication) exactly when a
/// dimension is below the base shape, or the depth limit is used up, or a dimension is at
/// or below the cutoff; otherwise the CP formula is applied exactly when `(m, n, p)` is the
/// base shape itself; otherwise the operands are peeled exactly when some dimension is not a
/// multiple of the base shape, and split into blocks (`m = m_block * shape.m`, and so on)
/// when every dimension is. A base step is multithreaded for `Dfs`, single-threaded for
/// `Bfs` and `Sequential`, and multithreaded for `Hybrid` exactly when more than one thread
/// is available.
pub proof fn lemma_plan_step_kinds(
    shape: CpShape,
    m: int,
    n: int,
    p: int,
    mode: ParallelismMode,
    limit: RecursionLimit,
    threads: int,
)
    requires
        shape.wf(),
        0 <= m <= usize::MAX,
        0 <= n <= usize::MAX,
        0 <= p <= usize::MAX,
    ensures
        ({
            let step = plan_spec(shape, m, n, p, mode, limit, threads);
            let below = m < shape.m || n < shape.n || p < shape.p;
            let stop = match limit {
                RecursionLimit::Depth(d) => d == 0 || below,
                RecursionLimit::Cutoff(c) => below || m <= c || n <= c || p <= c,
            };
            let at_base = m == shape.m && n == shape.n && p == shape.p;
            let divisible = m % (shape.m as int) == 0 && n % (shape.n as int) == 0 && p % (
            shape.p as int) == 0;
            &&& (step is Base <==> stop)
            &&& (step is CpProduct <==> !stop && at_base)
            &&& (step is CpProduct ==> m == shape.m && n == shape.n && p == shape.p)
            &&& (step is Peel <==> !stop && !at_base && !divisible)
            &&& (step is Split <==> !stop && !at_base && divisible)
            &&& (step is Split ==> m == step->m_block * shape.m && n == step->n_block * shape.n
                && p == step->p_block * shape.p)
            &&& (step matches MatMulStep::Base { multithreaded } ==> multithreaded == (mode
                == ParallelismMode::Dfs || (mode == ParallelismMode::Hybrid && threads > 1)))
        }),
{
    if plan_spec(shape, m, n, p, mode, limit, threads) is Split {
        lemma_split_makes_progress(shape, m, n, p, mode, limit, threads);
    }
}

/// A split step cuts the operands into exact blocks of the base shape, and the recursion
/// makes progress: a depth limit goes down by one level, and the block product is smaller
/// than the product it stands for whenever the base shape has more than one entry.
pub proof fn lemma_split_makes_progress(
    shape: CpShape,
    m: int,
    n: int,
    p: int,
    mode: ParallelismMode,
    limit: RecursionLimit,
    threads: int,
)
    requires
        shape.wf(),
        0 <= m <= usize::MAX,
        0 <= n <= usize::MAX,
        0 <= p <= usize::MAX,
        plan_spec(shape, m, n, p, mode, limit, threads) is Split,
    ensures
        ({
            let step = plan_spec(shape, m, n, p, mode, limit, threads);
            let mb = step->m_block as int;
            let nb = step->n_block as int;
            let pb = step->p_block as int;
            &&& m == mb * shape.m && n == nb * shape.n && p == pb * shape.p
            &&& mb >= 1 && nb >= 1 && pb >= 1
            &&& (limit matches RecursionLimit::Depth(d) ==> d >= 1 && step->next_limit
                == RecursionLimit::Depth((d - 1) as usize))
            &&& (limit is Cutoff ==> step->next_limit == limit)
            &&& (shape.m * shape.n * shape.p >= 2 ==> mb * nb * pb < m * n * p)
        }),
{
    let cm = shape.m as int;
    let cn = shape.n as int;
    let cp = shape.p as int;
    lemma_fundamental_div_mod(m, cm);
    lemma_fundamental_div_mod(n, cn);
    lemma_fundamental_div_mod(p, cp);
    let mb = m / cm;
    let nb = n / cn;
    let pb = p / cp;
    assert(m == mb * cm && n == nb * cn && p == pb * cp) by (nonlinear_arith)
        requires
            m == cm * mb + m % cm,
            n == cn * nb + n % cn,
            p == cp * pb + p % cp,
            m % cm == 0,
            n % cn == 0,
            p % cp == 0,
    ;
    assert(mb >= 1 && nb >= 1 && pb >= 1) by (nonlinear_arith)
        requires
            m == mb * cm,
            n == nb * cn,
            p == pb * cp,
            m >= cm >= 1,
            n >= cn >= 1,
            p >= cp >= 1,
    ;
    assert(mb <= m && nb <= n && pb <= p) by (nonlinear_arith)
        requires
            m == mb * cm,
            n == nb * cn,
            p == pb * cp,
            mb >= 1,
            nb >= 1,
            pb >= 1,
            cm >= 1,
            cn >= 1,
            cp >= 1,
    ;
    if cm * cn * cp >= 2 {
        assert(mb * nb * pb < m * n * p) by (nonlinear_arith)
            requires
                m == mb * cm,
                n == nb * cn,
                p == pb * cp,
                mb >= 1,
                nb >= 1,
                pb >= 1,
                cm >= 1,
                cn >= 1,
                cp >= 1,
                cm * cn * cp >= 2,
        {
            assert(m * n * p == (mb * nb * pb) * (cm * cn * cp));
            assert(mb * nb * pb >= 1);
        }
    }
}

/// The core left after peeling is never peeled again: with the same shape, mode and
/// limit, the plan for the core dimensions is a base, CP or split step. The core is also
/// smaller than what it is peeled from: it is empty, or its product `m * n * p` is
/// strictly smaller.
pub proof fn lemma_peeled_core_is_not_peeled(
    shape: CpShape,
    m: int,
    n: int,
    p: int,
    mode: ParallelismMode,
    limit: RecursionLimit,
    threads: int,
)
    requires
        shape.wf(),
        0 <= m <= usize::MAX,
        0 <= n <= usize::MAX,
        0 <= p <= usize::MAX,
        plan_spec(shape, m, n, p, mode, limit, threads) is Peel,
    ensures
        !(plan_spec(
            shape,
            m - m % (shape.m as int),
            n - n % (shape.n as int),
            p - p % (shape.p as int),
            mode,
            limit,
            threads,
        ) is Peel),
        ({
            let core = (m - m % (shape.m as int)) * (n - n % (shape.n as int)) * (p - p % (
            shape.p as int));
            core == 0 || core < m * n * p
        }),
{
    let cm = shape.m as int;
    let cn = shape.n as int;
    let cp = shape.p as int;
    vstd::arithmetic::div_mod::lemma_mod_pos_bound(m, cm);
    vstd::arithmetic::div_mod::lemma_mod_pos_bound(n, cn);
    vstd::arithmetic::div_mod::lemma_mod_pos_bound(p, cp);
    let a = m - m % cm;
    let b = n - n % cn;
    let c = p - p % cp;
    assert(m % cm > 0 || n % cn > 0 || p % cp > 0);
    assert(a * b * c == 0 || a * b * c < m * n * p) by (nonlinear_arith)
        requires
            0 <= a <= m,
            0 <= b <= n,
            0 <= c <= p,
            a < m || b < n || c < p,
    {
        if a * b * c != 0 {
            assert(a >= 1 && b >= 1 && c >= 1);
            assert(a * b * c <= m * b * c);
            assert(m * b * c <= m * n * c);
            assert(m * n * c <= m * n * p);
            if a < m {
                assert(a * b * c < m * b * c);
            } else if b < n {
                assert(m * b * c < m * n * c);
            } else {
                assert(m * n * c < m * n * p);
            }
        }
    }
    lemma_fundamental_div_mod(m, cm);
    lemma_fundamental_div_mod(n, cn);
    lemma_fundamental_div_mod(p, cp);
    lemma_mod_multiples_basic(m / cm, cm);
    lemma_mod_multiples_basic(n / cn, cn);
    lemma_mod_multiples_basic(p / cp, cp);
    lemma_mul_is_commutative(m / cm, cm);
    lemma_mul_is_commutative(n / cn, cn);
    lemma_mul_is_commutative(p / cp, cp);
}


/// `b` to the power `e`.
pub open spec fn power(b: nat, e: nat) -> nat
    decreases e,
{
    if e == 0 {
        1
    } else {
        b * power(b, (e - 1) as nat)
    }
}

proof fn lemma_power_positive(b: nat, e: nat)
    requires
        b >= 1,
    ensures
        power(b, e) >= 1,
    decreases e,
{
    if e > 0 {
        lemma_power_positive(b, (e - 1) as nat);
        assert(b * power(b, (e - 1) as nat) >= 1) by (nonlinear_arith)
            requires b >= 1, power(b, (e - 1) as nat) >= 1;
    }
}

proof fn lemma_power_monotone(b: nat, e1: nat, e2: nat)
    requires
        b >= 1,
        e1 <= e2,
    ensures
        power(b, e1) <= power(b, e2),
    decreases e2,
{
    if e2 > e1 {
        lemma_power_monotone(b, e1, (e2 - 1) as nat);
        lemma_power_positive(b, (e2 - 1) as nat);
        assert(power(b, (e2 - 1) as nat) <= b * power(b, (e2 - 1) as nat)) by (nonlinear_arith)
            requires b >= 1, power(b, (e2 - 1) as nat) >= 1;
    }
}

/// `base` to the power `exp`, as `usize::pow` computes it when it does not overflow.
fn pow_usize(base: usize, exp: u32) -> (r: usize)
    requires
        power(base as nat, exp as nat) <= usize::MAX,
    ensures
        r == power(base as nat, exp as nat),
{
    let mut acc: usize = 1;
    let mut i: u32 = 0;
    while i < exp
        invariant
            i <= exp,
            acc == power(base as nat, i as nat),
            power(base as nat, exp as nat) <= usize::MAX,
        decreases exp - i,
    {
        proof {
            assert(power(base as nat, (i + 1) as nat) == base * power(base as nat, i as nat));
            assert(acc * base == base * acc) by (nonlinear_arith);
            if base >= 1 {
                lemma_power_monotone(base as nat, (i + 1) as nat, exp as nat);
            } else {
                assert(acc * base == 0) by (nonlinear_arith) requires base == 0;
            }
        }
        acc = acc * base;
        i = i + 1;
    }
    acc
}

/// The exponent `level as u32` with which the hybrid mode raises the rank.
pub open spec fn level_exponent(level: usize) -> nat {
    (level as u32) as nat
}

/// The exponent `level.saturating_sub(1) as u32` of the level above.
pub open spec fn parent_exponent(level: usize) -> nat {
    ((if level == 0 { 0 } else { (level - 1) as usize }) as u32) as nat
}

/// The number of children that the hybrid mode spawns breadth-first at the current level,
/// with `rank` products per level, `level` levels still to go and `threads` threads: the
/// largest multiple of the thread count below `rank^level`, counted in units of
/// `rank^(level - 1)`.
pub open spec fn hybrid_bfs_children(rank: nat, level: usize, threads: nat) -> nat {
    let pt = if threads < 1 { 1 } else { threads };
    let total = power(rank, level_exponent(level));
    let k = (total - total % pt) as nat;
    let below = power(rank, parent_exponent(level));
    if below == 0 {
        0
    } else {
        k / below
    }
}

/// The parallelism mode of the `l`-th block product computed in `mode`.
pub open spec fn child_mode_spec(
    mode: ParallelismMode,
    rank: nat,
    limit: RecursionLimit,
    threads: nat,
    l: int,
) -> ParallelismMode {
    match mode {
        ParallelismMode::Hybrid => match limit {
            RecursionLimit::Depth(level) => if l < hybrid_bfs_children(rank, level, threads) {
                ParallelismMode::Bfs
            } else {
                ParallelismMode::Dfs
            },
            RecursionLimit::Cutoff(_) => ParallelismMode::Dfs,
        },
        _ => mode,
    }
}

/// The parallelism modes with which the `rank` block products `M_0, ..., M_{rank-1}` of one
/// split step are computed, given the limit passed down to them and the number of threads
/// in the current pool. The depth-first, breadth-first and sequential modes pass
/// themselves on; the hybrid mode computes the first children breadth-first and the rest
/// depth-first, so that the breadth-first tasks fill the pool.
///
/// The hybrid mode with a cutoff limit makes the caller panic, and is left out.
pub fn child_modes(mode: ParallelismMode, rank: usize, limit: RecursionLimit, threads: usize) -> (modes:
    Vec<ParallelismMode>)
    requires
        mode == ParallelismMode::Hybrid ==> limit is Depth,
        mode == ParallelismMode::Hybrid ==> power(rank as nat, level_exponent(limit->Depth_0))
            <= usize::MAX,
        mode == ParallelismMode::Hybrid ==> power(rank as nat, parent_exponent(limit->Depth_0))
            <= usize::MAX,
    ensures
        modes.len() == rank,
        forall|l: int|
            0 <= l < rank ==> modes@[l] == child_mode_spec(mode, rank as nat, limit, threads as nat, l),
{
    let mut bfs_children: usize = 0;
    if let ParallelismMode::Hybrid = mode {
        if let RecursionLimit::Depth(level) = limit {
            let p_threads = if threads < 1 { 1 } else { threads };
            let r_pow_l = pow_usize(rank, level as u32);
            proof {
                vstd::arithmetic::div_mod::lemma_mod_decreases(r_pow_l as nat, p_threads as nat);
            }
            let k = r_pow_l - (r_pow_l % p_threads);
            let r_pow_l_minus_1 = pow_usize(rank, level.saturating_sub(1) as u32);
            bfs_children = match k.checked_div(r_pow_l_minus_1) {
                Some(c) => c,
                None => 0,
            };
        }
    }
    let mut modes: Vec<ParallelismMode> = Vec::new();
    let mut l: usize = 0;
    while l < rank
        invariant
            l <= rank,
            modes.len() == l,
            mode == ParallelismMode::Hybrid ==> limit is Depth,
            mode == ParallelismMode::Hybrid ==> bfs_children == hybrid_bfs_children(
                rank as nat,
                limit->Depth_0,
                threads as nat,
            ),
            forall|j: int|
                0 <= j < l ==> modes@[j] == child_mode_spec(
                    mode,
                    rank as nat,
                    limit,
                    threads as nat,
                    j,
                ),
        decreases rank - l,
    {
        let child = match mode {
            ParallelismMode::Hybrid => if l < bfs_children {
                ParallelismMode::Bfs
            } else {
                ParallelismMode::Dfs
            },
            _ => mode,
        };
        modes.push(child);
        l = l + 1;
    }
    modes
}


/// The rows `row_start..row_end` and columns `col_start..col_end` of one block of a matrix.
#[derive(Debug, Clone, Copy, PartialEq, Eq, Structural)]
pub struct BlockRange {
    pub row_start: usize,
    pub row_end: usize,
    pub col_start: usize,
    pub col_end: usize,
}

/// The block in grid row `i` and grid column `j` when blocks are `block_rows x block_cols`.
pub open spec fn grid_block(i: int, j: int, block_rows: int, block_cols: int) -> BlockRange {
    BlockRange {
        row_start: (i * block_rows) as usize,
        row_end: ((i + 1) * block_rows) as usize,
        col_start: (j * block_cols) as usize,
        col_end: ((j + 1) * block_cols) as usize,
    }
}

/// Whether entry `(x, y)` lies in the block.
pub open spec fn block_contains(b: BlockRange, x: int, y: int) -> bool {
    b.row_start <= x < b.row_end && b.col_start <= y < b.col_end
}

/// Splits a matrix into a `grid_rows x grid_cols` grid of blocks of `block_rows x block_cols`
/// entries, listed in row-major order: `[A_{0,0}, A_{0,1}, ..., A_{1,0}, ...]`.
///
/// # Visualizing a 2^N x 2^N matrix split into 4 blocks (grid_rows = 2, grid_cols = 2):
///
/// ```text
///                     2^N columns
///         <--------------------------------->
///       +-------------------+-------------------+  ^
///       |      Block 0      |      Block 1      |  |
///       |      A_{0,0}      |      A_{0,1}      |  | 2^N rows
///       +-------------------+-------------------+  |
///       |      Block 2      |      Block 3      |  |
///       |      A_{1,0}      |      A_{1,1}      |  |
///       +-------------------+-------------------+  v
/// ```
pub fn vec_block_ranges(grid_rows: usize, grid_cols: usize, block_rows: usize, block_cols: usize) -> (blocks:
    Vec<BlockRange>)
    requires
        grid_rows * grid_cols <= usize::MAX,
        grid_rows * block_rows <= usize::MAX,
        grid_cols * block_cols <= usize::MAX,
    ensures
        blocks.len() == grid_rows * grid_cols,
        forall|i: int, j: int|
            0 <= i < grid_rows && 0 <= j < grid_cols ==> #[trigger] blocks@[i * grid_cols + j]
                == grid_block(i, j, block_rows as int, block_cols as int),
{
    let mut blocks: Vec<BlockRange> = Vec::with_capacity(grid_rows * grid_cols);
    let mut i: usize = 0;
    while i < grid_rows
        invariant
            i <= grid_rows,
            grid_rows * grid_cols <= usize::MAX,
            grid_rows * block_rows <= usize::MAX,
            grid_cols * block_cols <= usize::MAX,
            blocks.len() == i * grid_cols,
            forall|a: int, b: int|
                0 <= a < i && 0 <= b < grid_cols ==> #[trigger] blocks@[a * grid_cols + b]
                    == grid_block(a, b, block_rows as int, block_cols as int),
        decreases grid_rows - i,
    {
        assert((i + 1) * block_rows <= grid_rows * block_rows) by (nonlinear_arith)
            requires i < grid_rows;
        assert((i + 1) * grid_cols <= grid_rows * grid_cols) by (nonlinear_arith)
            requires i < grid_rows;
        let mut j: usize = 0;
        while j < grid_cols
            invariant
                i < grid_rows,
                j <= grid_cols,
                (i + 1) * block_rows <= usize::MAX,
                (i + 1) * grid_cols <= usize::MAX,
                grid_cols * block_cols <= usize::MAX,
                blocks.len() == i * grid_cols + j,
                forall|a: int, b: int|
                    (0 <= a < i && 0 <= b < grid_cols) || (a == i && 0 <= b < j)
                        ==> #[trigger] blocks@[a * grid_cols + b]
                        == grid_block(a, b, block_rows as int, block_cols as int),
            decreases grid_cols - j,
        {
            assert((j + 1) * block_cols <= grid_cols * block_cols) by (nonlinear_arith)
                requires j < grid_cols;
            assert(i * block_rows <= (i + 1) * block_rows) by (nonlinear_arith);
            assert(j * block_cols <= (j + 1) * block_cols) by (nonlinear_arith);
            assert(i * grid_cols + j < (i + 1) * grid_cols) by (nonlinear_arith)
                requires j < grid_cols;
            let ghost before = blocks@;
            blocks.push(BlockRange {
                row_start: i * block_rows,
                row_end: (i + 1) * block_rows,
                col_start: j * block_cols,
                col_end: (j + 1) * block_cols,
            });
            proof {
                assert forall|a: int, b: int|
                    (0 <= a < i && 0 <= b < grid_cols) || (a == i && 0 <= b < j + 1) implies
                    #[trigger] blocks@[a * grid_cols + b]
                    == grid_block(a, b, block_rows as int, block_cols as int) by {
                    if a < i {
                        assert(a * grid_cols + b < i * grid_cols) by (nonlinear_arith)
                            requires a < i, b < grid_cols;
                    } else if b < j {
                    } else {
                        assert(a * grid_cols + b == i * grid_cols + j);
                    }
                }
            }
            j = j + 1;
        }
        assert(i * grid_cols + grid_cols == (i + 1) * grid_cols) by (nonlinear_arith);
        i = i + 1;
    }
    blocks
}

/// The grid of blocks tiles the matrix: every entry of a `(grid_rows * block_rows) x
/// (grid_cols * block_cols)` matrix lies in exactly one block, the one in grid row
/// `x / block_rows` and grid column `y / block_cols`.
pub proof fn lemma_block_grid_tiles(
    grid_rows: int,
    grid_cols: int,
    block_rows: int,
    block_cols: int,
    x: int,
    y: int,
)
    requires
        block_rows >= 1,
        block_cols >= 1,
        grid_rows * block_rows <= usize::MAX,
        grid_cols * block_cols <= usize::MAX,
        0 <= x < grid_rows * block_rows,
        0 <= y < grid_cols * block_cols,
    ensures
        0 <= x / block_rows < grid_rows,
        0 <= y / block_cols < grid_cols,
        block_contains(grid_block(x / block_rows, y / block_cols, block_rows, block_cols), x, y),
        forall|i: int, j: int|
            0 <= i < grid_rows && 0 <= j < grid_cols && #[trigger] block_contains(
                grid_block(i, j, block_rows, block_cols),
                x,
                y,
            ) ==> i == x / block_rows && j == y / block_cols,
{
    lemma_fundamental_div_mod(x, block_rows);
    lemma_fundamental_div_mod(y, block_cols);
    let qi = x / block_rows;
    let qj = y / block_cols;
    assert(0 <= qi < grid_rows) by (nonlinear_arith)
        requires
            x == block_rows * qi + x % block_rows,
            0 <= x % block_rows < block_rows,
            0 <= x < grid_rows * block_rows,
    ;
    assert(0 <= qj < grid_cols) by (nonlinear_arith)
        requires
            y == block_cols * qj + y % block_cols,
            0 <= y % block_cols < block_cols,
            0 <= y < grid_cols * block_cols,
    ;
    assert((qi + 1) * block_rows <= grid_rows * block_rows) by (nonlinear_arith)
        requires qi < grid_rows, block_rows >= 1;
    assert((qj + 1) * block_cols <= grid_cols * block_cols) by (nonlinear_arith)
        requires qj < grid_cols, block_cols >= 1;
    assert(qi * block_rows <= x < (qi + 1) * block_rows) by (nonlinear_arith)
        requires
            x == block_rows * qi + x % block_rows,
            0 <= x % block_rows < block_rows,
    ;
    assert(qj * block_cols <= y < (qj + 1) * block_cols) by (nonlinear_arith)
        requires
            y == block_cols * qj + y % block_cols,
            0 <= y % block_cols < block_cols,
    ;
    assert(qi * block_rows >= 0 && qj * block_cols >= 0) by (nonlinear_arith)
        requires qi >= 0, qj >= 0, block_rows >= 1, block_cols >= 1;
    assert forall|i: int, j: int|
        0 <= i < grid_rows && 0 <= j < grid_cols && #[trigger] block_contains(
            grid_block(i, j, block_rows, block_cols),
            x,
            y,
        ) implies i == qi && j == qj by {
        assert((i + 1) * block_rows <= grid_rows * block_rows) by (nonlinear_arith)
            requires i < grid_rows, block_rows >= 1;
        assert((j + 1) * block_cols <= grid_cols * block_cols) by (nonlinear_arith)
            requires j < grid_cols, block_cols >= 1;
        assert(i * block_rows >= 0 && j * block_cols >= 0) by (nonlinear_arith)
            requires i >= 0, j >= 0, block_rows >= 1, block_cols >= 1;
        assert((i + 1) * block_rows == i * block_rows + block_rows) by (nonlinear_arith);
        assert((j + 1) * block_cols == j * block_cols + block_cols) by (nonlinear_arith);
        let b = grid_block(i, j, block_rows, block_cols);
        assert(b.row_start == i * block_rows);
        assert(b.row_end == (i + 1) * block_rows);
        assert(b.col_start == j * block_cols);
        assert(b.col_end == (j + 1) * block_cols);
        assert(x == i * block_rows + (x - i * block_rows));
        assert(i * block_rows == block_rows * i) by (nonlinear_arith);
        assert(j * block_cols == block_cols * j) by (nonlinear_arith);
        lemma_fundamental_div_mod_converse(x, block_rows, i, x - i * block_rows);
        lemma_fundamental_div_mod_converse(y, block_cols, j, y - j * block_cols);
    }
}


/// `rayon::current_num_threads`: the number of threads of the pool that the caller runs
/// in (the global pool outside of any pool). Which count it is depends on how the pool
/// was built and on the machine, so no value is named; rayon builds every pool with at
/// least one thread (`ThreadPoolBuilder::get_num_threads` never gives 0, and a registry
/// holds that many thread entries), so the count is at least one.
#[verifier::external_body]
fn rayon_current_num_threads() -> (threads: usize)
    ensures
        threads >= 1,
{
    rayon::current_num_threads()
}

/// `t`, counted as at least one: `t.max(1)`.
pub fn at_least_one(t: usize) -> (r: usize)
    ensures
        r == if t < 1 { 1 } else { t },
{
    if t < 1 { 1 } else { t }
}

/// The number of threads available to the current rayon pool, counted as at least one:
/// `at_least_one` of rayon's count.
pub fn available_threads() -> (threads: usize)
    ensures
        threads >= 1,
{
    at_least_one(rayon_current_num_threads())
}

/// Whether the faer base multiplication of an `a_rows x a_cols` by an `a_cols x b_cols`
/// matrix runs in parallel: only when multithreading is asked for and every dimension is
/// at least 256.
pub fn faer_uses_parallelism(multithreaded: bool, a_rows: usize, a_cols: usize, b_cols: usize) -> (par:
    bool)
    ensures
        par == (multithreaded && a_rows >= 256 && a_cols >= 256 && b_cols >= 256),
{
    multithreaded && a_rows >= 256 && a_cols >= 256 && b_cols >= 256
}

/// The thread count chosen from the values of the environment variables `RAYON_NUM_THREADS`,
/// `OMP_NUM_THREADS`, `MKL_NUM_THREADS` and `SLURM_CPUS_PER_TASK`, in that order (`None` for
/// one that is unset): the first that is set and parses as a `usize`.
pub open spec fn thread_count_spec(values: Seq<Option<Seq<char>>>) -> Option<usize>
    decreases values.len(),
{
    if values.len() == 0 {
        None
    } else {
        match values[0] {
            Some(v) if parse_usize_spec(v) is Some => parse_usize_spec(v),
            _ => thread_count_spec(values.drop_first()),
        }
    }
}

/// The character sequences of optional strings.
pub open spec fn option_views(values: Seq<Option<String>>) -> Seq<Option<Seq<char>>> {
    values.map_values(
        |o: Option<String>|
            match o {
                Some(s) => Some(s@),
                None => None,
            },
    )
}

/// Chooses the thread count for rayon's global pool from the values of the concurrency
/// environment variables, given in order of preference: the first that is set and parses
/// as a `usize`.
pub fn thread_count_from_vars(values: &Vec<Option<String>>) -> (r: Option<usize>)
    ensures
        r == thread_count_spec(option_views(values@)),
{
    let ghost all = option_views(values@);
    assert(all.skip(0) =~= all);
    let mut i: usize = 0;
    while i < values.len()
        invariant
            i <= values.len(),
            all == option_views(values@),
            thread_count_spec(all) == thread_count_spec(all.skip(i as int)),
        decreases values.len() - i,
    {
        proof {
            assert(all.skip(i as int).drop_first() =~= all.skip(i + 1));
            assert(all.skip(i as int)[0] == all[i as int]);
        }
        match &values[i] {
            Some(v) => {
                let chars = crate::text::chars_of(v.as_str());
                let parsed = parse_usize(&chars);
                if parsed.is_some() {
                    return parsed;
                }
            },
            None => {},
        }
        i = i + 1;
    }
    assert(all.skip(values.len() as int).len() == 0);
    None
}

/// What configuring rayon's global pool does at one call.
#[derive(Debug, Clone, Copy, PartialEq, Eq, Structural)]
pub enum ThreadPoolAction {
    /// Leave the pool as it is.
    Nothing,
    /// Make one attempt to build the global pool with this many threads (an error, such
    /// as a pool built already, is ignored).
    BuildGlobal(usize),
}

/// One call of the configuration of rayon's global pool, given whether an earlier call
/// happened already and the values of the concurrency environment variables (see
/// `thread_count_from_vars`): the state after the call, and what the call does.
pub open spec fn thread_pool_step_spec(configured: bool, values: Seq<Option<Seq<char>>>) -> (
    bool,
    ThreadPoolAction,
) {
    if configured {
        (true, ThreadPoolAction::Nothing)
    } else {
        match thread_count_spec(values) {
            Some(t) => (true, ThreadPoolAction::BuildGlobal(t)),
            None => (true, ThreadPoolAction::Nothing),
        }
    }
}

/// Decides one call of the configuration of rayon's global pool: only the first call in
/// the process acts, building the global pool with the thread count that the environment
/// variables give, if they give one; every call leaves the configuration done.
pub fn thread_pool_step(configured: bool, values: &Vec<Option<String>>) -> (r: (bool, ThreadPoolAction))
    ensures
        r == thread_pool_step_spec(configured, option_views(values@)),
{
    if configured {
        return (true, ThreadPoolAction::Nothing);
    }
    match thread_count_from_vars(values) {
        Some(t) => (true, ThreadPoolAction::BuildGlobal(t)),
        None => (true, ThreadPoolAction::Nothing),
    }
}

/// Only the first call configures the pool: after any call, every later call, whatever
/// the environment then holds, does nothing and leaves the configuration done.
pub proof fn lemma_thread_pool_configured_once(
    configured: bool,
    first: Seq<Option<Seq<char>>>,
    later: Seq<Option<Seq<char>>>,
)
    ensures
        thread_pool_step_spec(configured, first).0,
        thread_pool_step_spec(thread_pool_step_spec(configured, first).0, later) == (
            true,
            ThreadPoolAction::Nothing,
        ),
{
}

/// The number of breadth-first children of the hybrid mode is at most the rank.
pub proof fn lemma_hybrid_bfs_children_bounded(rank: nat, level: usize, threads: nat)
    requires
        rank >= 1,
    ensures
        hybrid_bfs_children(rank, level, threads) <= rank,
{
    let e0 = level_exponent(level);
    let e1 = parent_exponent(level);
    if level >= 1 && (level as u32) != 0 {
        let prev: usize = (level - 1) as usize;
        assert((prev as u32) as int == (level as u32) as int - 1) by (bit_vector)
            requires
                level >= 1,
                (level as u32) != 0,
                prev == level - 1,
        ;
    }
    assert(e0 <= e1 + 1);
    let pt: nat = if threads < 1 { 1 } else { threads };
    let total = power(rank, e0);
    let below = power(rank, e1);
    lemma_power_positive(rank, e1);
    lemma_power_monotone(rank, e0, e1 + 1);
    assert(power(rank, e1 + 1) == rank * below);
    vstd::arithmetic::div_mod::lemma_mod_decreases(total, pt);
    let k = (total - total % pt) as nat;
    assert(k <= rank * below);
    vstd::arithmetic::div_mod::lemma_div_is_ordered(k as int, (rank * below) as int, below as int);
    vstd::arithmetic::div_mod::lemma_div_by_multiple(rank as int, below as int);
}


/// The row-major flat index of `(i, j, k)` in a tensor of shape `(_, s1, s2)`.
pub open spec fn row_major_index(i: int, j: int, k: int, s1: int, s2: int) -> int {
    i * s1 * s2 + j * s2 + k
}

/// A 3D tensor representation in row-major layout used in matrix multiplication.
#[derive(Debug)]
pub struct Tensor3 {
    /// Flat vector containing the elements of the tensor.
    pub data: Vec<i64>,
    /// The shape (dimensions) of the tensor as (depth, rows, cols).
    pub shape: (usize, usize, usize),
}

impl Clone for Tensor3 {
    /// A copy with the same shape and entries.
    fn clone(&self) -> (t: Self)
        ensures
            t.shape == self.shape,
            t.data@ == self.data@,
    {
        Tensor3 { data: self.data.clone(), shape: self.shape }
    }
}

impl Tensor3 {
    /// The entry at `(i, j, k)`.
    pub open spec fn entry(&self, i: int, j: int, k: int) -> i64 {
        self.data@[row_major_index(i, j, k, self.shape.1 as int, self.shape.2 as int)]
    }

    /// Creates a new `Tensor3` of the specified shape with all elements initialized to zero.
    ///
    /// # Arguments
    /// * `shape` - The shape (depth, rows, cols) of the new tensor.
    pub fn zeros(shape: (usize, usize, usize)) -> (t: Self)
        requires
            shape.0 * shape.1 <= usize::MAX,
            shape.0 * shape.1 * shape.2 <= usize::MAX,
        ensures
            t.shape == shape,
            t.data.len() == shape.0 * shape.1 * shape.2,
            forall|x: int| 0 <= x < t.data.len() ==> t.data@[x] == 0,
    {
        let size = shape.0 * shape.1 * shape.2;
        let mut data: Vec<i64> = Vec::new();
        let mut x: usize = 0;
        while x < size
            invariant
                x <= size,
                data.len() == x,
                forall|y: int| 0 <= y < x ==> data@[y] == 0,
            decreases size - x,
        {
            data.push(0);
            x = x + 1;
        }
        Self { data, shape }
    }

    /// Returns the shape dimensions (depth, rows, cols) of the 3D tensor.
    pub fn dim(&self) -> (d: (usize, usize, usize))
        ensures
            d == self.shape,
    {
        self.shape
    }

    fn flat_index(&self, index: [usize; 3]) -> (idx: usize)
        requires
            index[0] * self.shape.1 <= usize::MAX,
            row_major_index(index[0] as int, index[1] as int, index[2] as int, self.shape.1 as int, self.shape.2 as int)
                < self.data.len(),
        ensures
            idx == row_major_index(index[0] as int, index[1] as int, index[2] as int, self.shape.1 as int, self.shape.2 as int),
    {
        let i = index[0];
        let j = index[1];
        let k = index[2];
        assert(i * self.shape.1 * self.shape.2 >= 0 && j * self.shape.2 >= 0) by (nonlinear_arith)
            requires i >= 0, j >= 0, self.shape.1 >= 0, self.shape.2 >= 0;
        i * self.shape.1 * self.shape.2 + j * self.shape.2 + k
    }

    /// The entry at `index = [i, j, k]`, as `tensor[[i, j, k]]` reads it.
    pub fn index(&self, index: [usize; 3]) -> (v: i64)
        requires
            index[0] * self.shape.1 <= usize::MAX,
            row_major_index(index[0] as int, index[1] as int, index[2] as int, self.shape.1 as int, self.shape.2 as int)
                < self.data.len(),
        ensures
            v == self.entry(index[0] as int, index[1] as int, index[2] as int),
    {
        let idx = self.flat_index(index);
        self.data[idx]
    }

    /// The entry at `index = [i, j, k]` for writing, as `tensor[[i, j, k]] = ...` reaches it.
    pub fn index_mut(&mut self, index: [usize; 3]) -> (r: &mut i64)
        requires
            index[0] * old(self).shape.1 <= usize::MAX,
            row_major_index(index[0] as int, index[1] as int, index[2] as int, old(self).shape.1 as int, old(self).shape.2 as int)
                < old(self).data.len(),
        ensures
            *r == old(self).entry(index[0] as int, index[1] as int, index[2] as int),
            final(self).shape == old(self).shape,
            final(self).data@ == old(self).data@.update(
                row_major_index(index[0] as int, index[1] as int, index[2] as int, old(self).shape.1 as int, old(self).shape.2 as int),
                *final(r),
            ),
    {
        let idx = self.flat_index(index);
        &mut self.data[idx]
    }
}

/// Inside the shape `(s0, s1, s2)`, the row-major index lies below `s0 * s1 * s2`, and it
/// tells the coordinates apart: `k`, `j` and `i` are read back from it by division and
/// remainder, so distinct coordinates never share a cell.
pub proof fn lemma_row_major_index_bijective(i: int, j: int, k: int, shape: (usize, usize, usize))
    requires
        0 <= i < shape.0,
        0 <= j < shape.1,
        0 <= k < shape.2,
    ensures
        0 <= row_major_index(i, j, k, shape.1 as int, shape.2 as int) < shape.0 * shape.1 * shape.2,
        row_major_index(i, j, k, shape.1 as int, shape.2 as int) % (shape.2 as int) == k,
        (row_major_index(i, j, k, shape.1 as int, shape.2 as int) / (shape.2 as int)) % (shape.1 as int) == j,
        row_major_index(i, j, k, shape.1 as int, shape.2 as int) / (shape.2 as int) / (shape.1 as int) == i,
{
    let s0 = shape.0 as int;
    let s1 = shape.1 as int;
    let s2 = shape.2 as int;
    let idx = row_major_index(i, j, k, s1, s2);
    assert(idx == (i * s1 + j) * s2 + k) by (nonlinear_arith)
        requires idx == i * s1 * s2 + j * s2 + k;
    assert(i * s1 + j >= 0) by (nonlinear_arith) requires i >= 0, j >= 0, s1 >= 0;
    lemma_fundamental_div_mod_converse(idx, s2, i * s1 + j, k);
    lemma_fundamental_div_mod_converse(i * s1 + j, s1, i, j);
    assert(idx < s0 * s1 * s2) by (nonlinear_arith)
        requires
            idx == (i * s1 + j) * s2 + k,
            0 <= i < s0,
            0 <= j < s1,
            0 <= k < s2,
    {
        assert(i * s1 + j <= s0 * s1 - 1) by (nonlinear_arith)
            requires 0 <= i < s0, 0 <= j < s1;
        assert((i * s1 + j) * s2 <= (s0 * s1 - 1) * s2) by (nonlinear_arith)
            requires i * s1 + j <= s0 * s1 - 1, s2 >= 1;
    }
    assert(idx >= 0) by (nonlinear_arith)
        requires idx == (i * s1 + j) * s2 + k, i * s1 + j >= 0, k >= 0, s2 >= 1;
}

/// Writing the entry at `(i, j, k)` of a row-major tensor through `index_mut` sets that
/// entry to the written value and leaves every other entry inside the shape unchanged.
pub proof fn lemma_tensor3_write_then_entry(
    before: Tensor3,
    after: Tensor3,
    i: int,
    j: int,
    k: int,
    val: i64,
    a: int,
    b: int,
    c: int,
)
    requires
        before.data.len() == before.shape.0 * before.shape.1 * before.shape.2,
        0 <= i < before.shape.0 && 0 <= j < before.shape.1 && 0 <= k < before.shape.2,
        0 <= a < before.shape.0 && 0 <= b < before.shape.1 && 0 <= c < before.shape.2,
        after.shape == before.shape,
        after.data@ == before.data@.update(
            row_major_index(i, j, k, before.shape.1 as int, before.shape.2 as int),
            val,
        ),
    ensures
        after.data.len() == before.data.len(),
        after.entry(a, b, c) == if (a, b, c) == (i, j, k) {
            val
        } else {
            before.entry(a, b, c)
        },
{
    lemma_row_major_index_bijective(i, j, k, before.shape);
    lemma_row_major_index_bijective(a, b, c, before.shape);
}

} // verus!
