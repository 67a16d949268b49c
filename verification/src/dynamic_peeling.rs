//! One step of dynamic peeling for `C = A * B` when some dimension is not a multiple of
//! the base shape of the decomposition.
//!
//! The operands `a` (m × n) and `b` (n × p) are split into a CP-divisible core and up to
//! three boundary regions:
//!
//! ```text
//!            <--- n-1 --->  < 1 >                  <--- p-1 --->  < 1 >
//!         +---------------+-------+  ^          +---------------+-------+  ^
//!         |    A_{1,1}    |a_{1,2}|  | m-1      |    B_{1,1}    |b_{1,2}|  | n-1
//!       A=|---------------+-------|  v        B=|---------------+-------|  v
//!         |    a_{2,1}    |a_{2,2}|  ^ 1        |    b_{2,1}    |b_{2,2}|  ^ 1
//!         +---------------+-------+  v          +---------------+-------+  v
//! ```
//!
//! Only `A_{1,1} B_{1,1}` is computed with the fast algorithm; the inner strip, the right
//! columns and the bottom rows are low-rank corrections computed with the base
//! multiplication.
use crate::matmul::{BaseMatMul, CpShape, RecursionLimit};
use crate::parallelism_mode::ParallelismMode;
use vstd::prelude::*;

verus! {

/// A block `C[row_start..row_end, col_start..col_end]` that one step computes as the
/// product `A[row_start..row_end, inner_start..inner_end] * B[inner_start..inner_end,
/// col_start..col_end]`. The product is added to the block when `accumulate` holds, and
/// replaces it otherwise.
#[derive(Debug, Clone, Copy, PartialEq, Eq, Structural)]
pub struct Region {
    pub row_start: usize,
    pub row_end: usize,
    pub col_start: usize,
    pub col_end: usize,
    pub inner_start: usize,
    pub inner_end: usize,
    pub accumulate: bool,
}

/// Whether the region is present and holds entry `(i, j)` of `C`.
pub open spec fn covers(r: Option<Region>, i: int, j: int) -> bool {
    r matches Some(region) && region.row_start <= i < region.row_end && region.col_start <= j
        < region.col_end
}

/// The peeling of one multiplication `C = A * B`, `A` being `m x n` and `B` being `n x p`.
#[derive(Debug, Clone, Copy)]
pub struct DynamicPeeling {
    pub mode: ParallelismMode,
    pub base_choice: BaseMatMul,
    pub recursion_limit: RecursionLimit,
    pub core_m: usize,
    pub core_n: usize,
    pub core_p: usize,
    pub extra_m: usize,
    pub extra_n: usize,
    pub extra_p: usize,
    pub m: usize,
    pub n: usize,
    pub p: usize,
    pub multithreaded: bool,
}

impl DynamicPeeling {
    /// Each dimension is its core plus its extra part.
    pub open spec fn wf(self) -> bool {
        &&& self.core_m + self.extra_m == self.m
        &&& self.core_n + self.extra_n == self.n
        &&& self.core_p + self.extra_p == self.p
    }

    /// Creates the peeling of `m x n` times `n x p` for a decomposition of the given shape.
    pub fn new(
        shape: CpShape,
        m: usize,
        n: usize,
        p: usize,
        mode: ParallelismMode,
        base_choice: BaseMatMul,
        recursion_limit: RecursionLimit,
    ) -> (peeling: Self)
        requires
            shape.wf(),
        ensures
            peeling.wf(),
            peeling.m == m && peeling.n == n && peeling.p == p,
            peeling.extra_m == m % shape.m,
            peeling.extra_n == n % shape.n,
            peeling.extra_p == p % shape.p,
            peeling.mode == mode,
            peeling.base_choice == base_choice,
            peeling.recursion_limit == recursion_limit,
            peeling.multithreaded == (mode == ParallelismMode::Dfs || mode
                == ParallelismMode::Hybrid),
    {
        let extra_m = m % shape.m;
        let extra_n = n % shape.n;
        let extra_p = p % shape.p;

        proof {
            vstd::arithmetic::div_mod::lemma_mod_decreases(m as nat, shape.m as nat);
            vstd::arithmetic::div_mod::lemma_mod_decreases(n as nat, shape.n as nat);
            vstd::arithmetic::div_mod::lemma_mod_decreases(p as nat, shape.p as nat);
        }
        let core_m = m - extra_m;
        let core_n = n - extra_n;
        let core_p = p - extra_p;

        let multithreaded = match mode {
            ParallelismMode::Dfs | ParallelismMode::Hybrid => true,
            _ => false,
        };

        DynamicPeeling {
            mode,
            base_choice,
            recursion_limit,
            core_m,
            core_n,
            core_p,
            extra_m,
            extra_n,
            extra_p,
            m,
            n,
            p,
            multithreaded,
        }
    }

    /// The CP recursive product of the largest CP-divisible core block, when the core is
    /// not empty: `C[..core_m, ..core_p] = A[..core_m, ..core_n] * B[..core_n, ..core_p]`.
    pub fn peel_core(&self) -> (r: Option<Region>)
        ensures
            r == self.core_spec(),
            r matches Some(region) ==> !region.accumulate,
    {
        if self.core_m > 0 && self.core_n > 0 && self.core_p > 0 {
            Some(
                Region {
                    row_start: 0,
                    row_end: self.core_m,
                    col_start: 0,
                    col_end: self.core_p,
                    inner_start: 0,
                    inner_end: self.core_n,
                    accumulate: false,
                },
            )
        } else {
            None
        }
    }

    /// The GEMM correction for the peeled inner-dimension (column-row) strip:
    /// `C[..core_m, ..core_p] += A[..core_m, core_n..n] * B[core_n..n, ..core_p]`.
    pub fn correct_inner_dimension(&self) -> (r: Option<Region>)
        ensures
            r == self.inner_spec(),
            r matches Some(region) ==> region.accumulate && region.inner_start == self.core_n && region.inner_end == self.n,
    {
        if self.extra_n > 0 && self.core_m > 0 && self.core_p > 0 {
            Some(
                Region {
                    row_start: 0,
                    row_end: self.core_m,
                    col_start: 0,
                    col_end: self.core_p,
                    inner_start: self.core_n,
                    inner_end: self.n,
                    accumulate: true,
                },
            )
        } else {
            None
        }
    }

    /// The peeled far-right columns via standard GEMM: `C[.., core_p..p] = A * B[.., core_p..p]`.
    pub fn correct_right_columns(&self) -> (r: Option<Region>)
        ensures
            r == self.right_spec(),
            r matches Some(region) ==> !region.accumulate,
    {
        if self.extra_p > 0 {
            Some(
                Region {
                    row_start: 0,
                    row_end: self.m,
                    col_start: self.core_p,
                    col_end: self.p,
                    inner_start: 0,
                    inner_end: self.n,
                    accumulate: false,
                },
            )
        } else {
            None
        }
    }

    /// The peeled bottom rows (excluding the rightmost columns) via standard GEMM:
    /// `C[core_m..m, ..core_p] = A[core_m..m, ..] * B[.., ..core_p]`.
    pub fn correct_bottom_rows(&self) -> (r: Option<Region>)
        ensures
            r == self.bottom_spec(),
            r matches Some(region) ==> !region.accumulate,
    {
        if self.extra_m > 0 && self.core_p > 0 {
            Some(
                Region {
                    row_start: self.core_m,
                    row_end: self.m,
                    col_start: 0,
                    col_end: self.core_p,
                    inner_start: 0,
                    inner_end: self.n,
                    accumulate: false,
                },
            )
        } else {
            None
        }
    }

    /// The region computed by `peel_core`, as a spec value.
    pub open spec fn core_spec(self) -> Option<Region> {
        if self.core_m > 0 && self.core_n > 0 && self.core_p > 0 {
            Some(Region { row_start: 0, row_end: self.core_m, col_start: 0, col_end: self.core_p,
                inner_start: 0, inner_end: self.core_n, accumulate: false })
        } else {
            None
        }
    }

    /// The region computed by `correct_inner_dimension`, as a spec value.
    pub open spec fn inner_spec(self) -> Option<Region> {
        if self.extra_n > 0 && self.core_m > 0 && self.core_p > 0 {
            Some(Region { row_start: 0, row_end: self.core_m, col_start: 0, col_end: self.core_p,
                inner_start: self.core_n, inner_end: self.n, accumulate: true })
        } else {
            None
        }
    }

    /// The region computed by `correct_right_columns`, as a spec value.
    pub open spec fn right_spec(self) -> Option<Region> {
        if self.extra_p > 0 {
            Some(Region { row_start: 0, row_end: self.m, col_start: self.core_p, col_end: self.p,
                inner_start: 0, inner_end: self.n, accumulate: false })
        } else {
            None
        }
    }

    /// The region computed by `correct_bottom_rows`, as a spec value.
    pub open spec fn bottom_spec(self) -> Option<Region> {
        if self.extra_m > 0 && self.core_p > 0 {
            Some(Region { row_start: self.core_m, row_end: self.m, col_start: 0, col_end: self.core_p,
                inner_start: 0, inner_end: self.n, accumulate: false })
        } else {
            None
        }
    }
}

/// Applied in the order core, inner strip, right columns, bottom rows to a zeroed `C`, the
/// four steps compute every entry of `C = A * B` exactly once over the whole inner
/// dimension: an entry of the core block gets the inner indices `0..core_n` from the core
/// product and `core_n..n` from the inner strip (each when not empty), and every other
/// entry is written once, by the right columns or the bottom rows, over `0..n`.
pub proof fn lemma_peeling_covers_product(peeling: DynamicPeeling, i: int, j: int)
    requires
        peeling.wf(),
        0 <= i < peeling.m,
        0 <= j < peeling.p,
    ensures
        i < peeling.core_m && j < peeling.core_p ==> {
            &&& !covers(peeling.right_spec(), i, j)
            &&& !covers(peeling.bottom_spec(), i, j)
            &&& covers(peeling.core_spec(), i, j) <==> peeling.core_n > 0
            &&& covers(peeling.inner_spec(), i, j) <==> peeling.core_n < peeling.n
            &&& covers(peeling.core_spec(), i, j) ==> peeling.core_spec()->0.inner_start == 0
                && peeling.core_spec()->0.inner_end == peeling.core_n
            &&& covers(peeling.inner_spec(), i, j) ==> peeling.inner_spec()->0.inner_start
                == peeling.core_n && peeling.inner_spec()->0.inner_end == peeling.n
        },
        !(i < peeling.core_m && j < peeling.core_p) ==> {
            &&& !covers(peeling.core_spec(), i, j)
            &&& !covers(peeling.inner_spec(), i, j)
            &&& covers(peeling.right_spec(), i, j) != covers(peeling.bottom_spec(), i, j)
            &&& covers(peeling.right_spec(), i, j) ==> peeling.right_spec()->0.inner_start == 0
                && peeling.right_spec()->0.inner_end == peeling.n
            &&& covers(peeling.bottom_spec(), i, j) ==> peeling.bottom_spec()->0.inner_start
                == 0 && peeling.bottom_spec()->0.inner_end == peeling.n
        },
{
}

/// The core of a peeling is a multiple of the base shape in every dimension, and what is
/// peeled off is less than one base block.
pub proof fn lemma_peeling_core_is_divisible(shape: CpShape, peeling: DynamicPeeling)
    requires
        shape.wf(),
        peeling.wf(),
        peeling.extra_m == peeling.m % shape.m,
        peeling.extra_n == peeling.n % shape.n,
        peeling.extra_p == peeling.p % shape.p,
    ensures
        peeling.core_m % shape.m == 0,
        peeling.core_n % shape.n == 0,
        peeling.core_p % shape.p == 0,
        peeling.extra_m < shape.m,
        peeling.extra_n < shape.n,
        peeling.extra_p < shape.p,
{
    vstd::arithmetic::div_mod::lemma_fundamental_div_mod(peeling.m as int, shape.m as int);
    vstd::arithmetic::div_mod::lemma_fundamental_div_mod(peeling.n as int, shape.n as int);
    vstd::arithmetic::div_mod::lemma_fundamental_div_mod(peeling.p as int, shape.p as int);
    vstd::arithmetic::div_mod::lemma_mod_multiples_basic(peeling.m as int / shape.m as int, shape.m as int);
    vstd::arithmetic::div_mod::lemma_mod_multiples_basic(peeling.n as int / shape.n as int, shape.n as int);
    vstd::arithmetic::div_mod::lemma_mod_multiples_basic(peeling.p as int / shape.p as int, shape.p as int);
    vstd::arithmetic::mul::lemma_mul_is_commutative(peeling.m as int / shape.m as int, shape.m as int);
    vstd::arithmetic::mul::lemma_mul_is_commutative(peeling.n as int / shape.n as int, shape.n as int);
    vstd::arithmetic::mul::lemma_mul_is_commutative(peeling.p as int / shape.p as int, shape.p as int);
}

/// `sum over inner_start <= k < inner_end of a(i, k) * b(k, j)`: entry `(i, j)` of the
/// product of `A[.., lo..hi]` and `B[lo..hi, ..]`.
pub open spec fn inner_sum(
    a: spec_fn(int, int) -> int,
    b: spec_fn(int, int) -> int,
    i: int,
    j: int,
    lo: int,
    hi: int,
) -> int
    decreases hi - lo,
{
    if hi <= lo {
        0
    } else {
        inner_sum(a, b, i, j, lo, hi - 1) + a(i, hi - 1) * b(hi - 1, j)
    }
}

/// Entry `(i, j)` of `C` after one step writes its region, `c` being the entry before: the
/// region's product is added to `c` when the region accumulates and replaces it otherwise;
/// an absent region, or one that does not hold `(i, j)`, leaves `c` as it is.
pub open spec fn apply_region(
    r: Option<Region>,
    a: spec_fn(int, int) -> int,
    b: spec_fn(int, int) -> int,
    i: int,
    j: int,
    c: int,
) -> int {
    if covers(r, i, j) {
        (if r->0.accumulate { c } else { 0 }) + inner_sum(
            a,
            b,
            i,
            j,
            r->0.inner_start as int,
            r->0.inner_end as int,
        )
    } else {
        c
    }
}

/// Entry `(i, j)` of `C` after the four steps of a peeling, in the order core, inner
/// strip, right columns, bottom rows, starting from a zeroed `C`.
pub open spec fn peeled_entry(
    peeling: DynamicPeeling,
    a: spec_fn(int, int) -> int,
    b: spec_fn(int, int) -> int,
    i: int,
    j: int,
) -> int {
    let c0 = apply_region(peeling.core_spec(), a, b, i, j, 0);
    let c1 = apply_region(peeling.inner_spec(), a, b, i, j, c0);
    let c2 = apply_region(peeling.right_spec(), a, b, i, j, c1);
    apply_region(peeling.bottom_spec(), a, b, i, j, c2)
}

proof fn lemma_inner_sum_split(
    a: spec_fn(int, int) -> int,
    b: spec_fn(int, int) -> int,
    i: int,
    j: int,
    lo: int,
    mid: int,
    hi: int,
)
    requires
        lo <= mid <= hi,
    ensures
        inner_sum(a, b, i, j, lo, mid) + inner_sum(a, b, i, j, mid, hi) == inner_sum(a, b, i, j, lo, hi),
    decreases hi - mid,
{
    if mid < hi {
        lemma_inner_sum_split(a, b, i, j, lo, mid, hi - 1);
    }
}

/// Peeling computes the product: for all matrices `A` (`m x n`) and `B` (`n x p`), given as
/// functions of their indices, the four steps of a peeling applied in order to a zeroed `C`
/// leave every entry `(i, j)` equal to `sum over k < n of A[i, k] * B[k, j]`.
pub proof fn lemma_peeling_computes_product(
    peeling: DynamicPeeling,
    a: spec_fn(int, int) -> int,
    b: spec_fn(int, int) -> int,
    i: int,
    j: int,
)
    requires
        peeling.wf(),
        0 <= i < peeling.m,
        0 <= j < peeling.p,
    ensures
        peeled_entry(peeling, a, b, i, j) == inner_sum(a, b, i, j, 0, peeling.n as int),
{
    lemma_peeling_covers_product(peeling, i, j);
    lemma_inner_sum_split(a, b, i, j, 0, peeling.core_n as int, peeling.n as int);
    if i < peeling.core_m && j < peeling.core_p {
        assert(peeling.inner_spec() is Some ==> peeling.inner_spec()->0.accumulate);
    }
}

} // verus!
