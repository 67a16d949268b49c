//! The matrix multiplication tensor `<m, n, p>` and the three-dimensional tensors that
//! hold it.
//!
//! Entries are integers: the multiplication tensor is made of zeros and ones.
use crate::l_map::{l_map_spec, l_star_map_inv_spec};
use vstd::arithmetic::div_mod::{lemma_fundamental_div_mod, lemma_fundamental_div_mod_converse};
use vstd::prelude::*;

pub use crate::l_map::{l_map, l_map_inv, l_star_map, l_star_map_inv};

verus! {

/// The column-major flat index of `(i, j, k)` in a tensor of shape `(s0, s1, _)`.
pub open spec fn col_major_index(i: int, j: int, k: int, s0: int, s1: int) -> int {
    i + j * s0 + k * s0 * s1
}

/// Whether `(i, j, k)` lies inside a tensor of the given shape.
pub open spec fn in_shape(i: int, j: int, k: int, shape: (usize, usize, usize)) -> bool {
    0 <= i < shape.0 && 0 <= j < shape.1 && 0 <= k < shape.2
}

/// The number of entries of a tensor of the given shape.
pub open spec fn shape_size(shape: (usize, usize, usize)) -> int {
    shape.0 * shape.1 * shape.2
}

/// A 3-dimensional tensor represented in column-major order.
/// Dimensions are (I, J, K), where:
/// - I = m * n (size of vec(U))
/// - J = n * p (size of vec(V))
/// - K = m * p (size of vec(W^T))
#[derive(Debug, PartialEq)]
pub struct Tensor3D {
    pub shape: (usize, usize, usize),
    pub data: Vec<i64>,
}

impl Clone for Tensor3D {
    /// A copy with the same shape and entries.
    fn clone(&self) -> (t: Self)
        ensures
            t.shape == self.shape,
            t.data@ == self.data@,
    {
        Tensor3D { shape: self.shape, data: self.data.clone() }
    }
}

impl Tensor3D {
    /// The data holds one entry per coordinate.
    pub open spec fn wf(&self) -> bool {
        self.data.len() == shape_size(self.shape)
    }

    /// The entry at `(i, j, k)`.
    pub open spec fn entry(&self, i: int, j: int, k: int) -> i64 {
        self.data@[col_major_index(i, j, k, self.shape.0 as int, self.shape.1 as int)]
    }

    /// Create a new 3D tensor initialized with zeros of the given shape.
    pub fn new(shape: (usize, usize, usize)) -> (t: Self)
        requires
            shape.0 * shape.1 <= usize::MAX,
            shape_size(shape) <= usize::MAX,
        ensures
            t.shape == shape,
            t.wf(),
            forall|x: int| 0 <= x < t.data.len() ==> t.data@[x] == 0,
    {
        let size = shape.0 * shape.1 * shape.2;
        let mut data: Vec<i64> = Vec::new();
        let mut x: usize = 0;
        while x < size
            invariant
                x <= size,
                data.len() == x,
                forall|y: int| 0 <= y < x ==> data@[y] == 0,
            decreases size - x,
        {
            data.push(0);
            x = x + 1;
        }
        Self { shape, data }
    }

    /// Map a 3D index (i, j, k) to a 1D column-major flat index.
    /// In column-major order, the first dimension (i) varies fastest,
    /// then the second (j), and then the third (k).
    #[inline]
    pub fn index(&self, i: usize, j: usize, k: usize) -> (idx: usize)
        requires
            col_major_index(i as int, j as int, k as int, self.shape.0 as int, self.shape.1 as int)
                <= usize::MAX,
            k * self.shape.0 <= usize::MAX,
        ensures
            idx == col_major_index(i as int, j as int, k as int, self.shape.0 as int, self.shape.1 as int),
    {
        let (shape_i, shape_j, _shape_k) = self.shape;
        proof {
            lemma_index_parts_fit(i as int, j as int, k as int, shape_i as int, shape_j as int);
        }
        i + j * shape_i + k * shape_i * shape_j
    }

    /// Retrieve the value at the 3D index (i, j, k).
    pub fn get(&self, i: usize, j: usize, k: usize) -> (v: i64)
        requires
            col_major_index(i as int, j as int, k as int, self.shape.0 as int, self.shape.1 as int)
                < self.data.len(),
            k * self.shape.0 <= usize::MAX,
        ensures
            v == self.entry(i as int, j as int, k as int),
    {
        let idx = self.index(i, j, k);
        self.data[idx]
    }

    /// Set the value at the 3D index (i, j, k).
    pub fn set(&mut self, i: usize, j: usize, k: usize, val: i64)
        requires
            col_major_index(i as int, j as int, k as int, old(self).shape.0 as int, old(self).shape.1 as int)
                < old(self).data.len(),
            k * old(self).shape.0 <= usize::MAX,
        ensures
            final(self).shape == old(self).shape,
            final(self).data@ == old(self).data@.update(
                col_major_index(i as int, j as int, k as int, old(self).shape.0 as int, old(self).shape.1 as int),
                val,
            ),
    {
        let idx = self.index(i, j, k);
        self.data.set(idx, val);
    }
}

proof fn lemma_index_parts_fit(i: int, j: int, k: int, s0: int, s1: int)
    requires
        i >= 0,
        j >= 0,
        k >= 0,
        s0 >= 0,
        s1 >= 0,
    ensures
        j * s0 >= 0,
        k * s0 >= 0,
        k * s0 * s1 >= 0,
        i + j * s0 <= col_major_index(i, j, k, s0, s1),
        j * s0 <= col_major_index(i, j, k, s0, s1),
        k * s0 <= col_major_index(i, j, k, s0, s1) || s1 == 0,
        k * s0 * s1 <= col_major_index(i, j, k, s0, s1),
{
    assert(j * s0 >= 0 && k * s0 >= 0 && k * s0 * s1 >= 0) by (nonlinear_arith)
        requires j >= 0, k >= 0, s0 >= 0, s1 >= 0;
    assert(k * s0 <= k * s0 * s1 || s1 == 0) by (nonlinear_arith)
        requires k * s0 >= 0, s1 >= 0;
}

/// Inside the shape, the column-major index is below the number of entries, and it tells
/// the coordinates apart: `i`, `j` and `k` are read back from it by division and remainder.
pub proof fn lemma_col_major_index_bijective(i: int, j: int, k: int, shape: (usize, usize, usize))
    requires
        in_shape(i, j, k, shape),
    ensures
        0 <= col_major_index(i, j, k, shape.0 as int, shape.1 as int) < shape_size(shape),
        col_major_index(i, j, k, shape.0 as int, shape.1 as int) % (shape.0 as int) == i,
        (col_major_index(i, j, k, shape.0 as int, shape.1 as int) / (shape.0 as int)) % (shape.1 as int) == j,
        col_major_index(i, j, k, shape.0 as int, shape.1 as int) / (shape.0 as int) / (shape.1 as int) == k,
{
    let s0 = shape.0 as int;
    let s1 = shape.1 as int;
    let s2 = shape.2 as int;
    let idx = col_major_index(i, j, k, s0, s1);
    assert(idx == (j + k * s1) * s0 + i) by (nonlinear_arith)
        requires idx == i + j * s0 + k * s0 * s1;
    assert(j + k * s1 >= 0) by (nonlinear_arith) requires j >= 0, k >= 0, s1 >= 0;
    lemma_fundamental_div_mod_converse(idx, s0, j + k * s1, i);
    lemma_fundamental_div_mod_converse(j + k * s1, s1, k, j);
    assert(idx < s0 * s1 * s2) by (nonlinear_arith)
        requires
            idx == (j + k * s1) * s0 + i,
            0 <= i < s0,
            0 <= j < s1,
            0 <= k < s2,
    {
        assert(j + k * s1 <= s1 * s2 - 1) by (nonlinear_arith)
            requires 0 <= j < s1, 0 <= k < s2;
        assert((j + k * s1) * s0 <= (s1 * s2 - 1) * s0) by (nonlinear_arith)
            requires j + k * s1 <= s1 * s2 - 1, s0 >= 1;
    }
    assert(idx >= 0) by (nonlinear_arith) requires idx == (j + k * s1) * s0 + i, j + k * s1 >= 0, i >= 0, s0 >= 1;
}

/// Two coordinates inside the shape have the same column-major index only if they are equal.
pub proof fn lemma_col_major_index_injective(
    a: (int, int, int),
    b: (int, int, int),
    shape: (usize, usize, usize),
)
    requires
        in_shape(a.0, a.1, a.2, shape),
        in_shape(b.0, b.1, b.2, shape),
        col_major_index(a.0, a.1, a.2, shape.0 as int, shape.1 as int) == col_major_index(
            b.0,
            b.1,
            b.2,
            shape.0 as int,
            shape.1 as int,
        ),
    ensures
        a == b,
{
    lemma_col_major_index_bijective(a.0, a.1, a.2, shape);
    lemma_col_major_index_bijective(b.0, b.1, b.2, shape);
}

/// After `set(i, j, k, val)`, the entry at `(i, j, k)` is `val` and every other entry
/// inside the shape is unchanged.
pub proof fn lemma_set_then_entry(
    before: Tensor3D,
    after: Tensor3D,
    i: int,
    j: int,
    k: int,
    val: i64,
    a: int,
    b: int,
    c: int,
)
    requires
        before.wf(),
        in_shape(i, j, k, before.shape),
        in_shape(a, b, c, before.shape),
        after.shape == before.shape,
        after.data@ == before.data@.update(
            col_major_index(i, j, k, before.shape.0 as int, before.shape.1 as int),
            val,
        ),
    ensures
        after.wf(),
        after.entry(a, b, c) == if (a, b, c) == (i, j, k) {
            val
        } else {
            before.entry(a, b, c)
        },
{
    lemma_col_major_index_bijective(i, j, k, before.shape);
    lemma_col_major_index_bijective(a, b, c, before.shape);
    if (a, b, c) != (i, j, k) {
        if col_major_index(a, b, c, before.shape.0 as int, before.shape.1 as int) == col_major_index(
            i,
            j,
            k,
            before.shape.0 as int,
            before.shape.1 as int,
        ) {
            lemma_col_major_index_injective((a, b, c), (i, j, k), before.shape);
        }
    }
}


/// Whether entry `(i, j, k)` (0-based) of the `<m, n, p>` multiplication tensor is one:
/// `i` is the column-major index of `U[r, h]`, `j` that of `V[h, c]` and `k` the row-major
/// index of `W[r, c]`, for some `r`, `h`, `c`.
pub open spec fn is_matmul_entry(m: int, n: int, p: int, i: int, j: int, k: int) -> bool {
    i % m == k / p && j / n == k % p && i / m == j % n
}

/// The shape `(m n, n p, m p)` of the `<m, n, p>` multiplication tensor.
pub open spec fn matmul_shape(m: usize, n: usize, p: usize) -> (usize, usize, usize) {
    ((m * n) as usize, (n * p) as usize, (m * p) as usize)
}

proof fn lemma_matmul_write(m: int, n: int, p: int, k0: int, h0: int)
    requires
        m >= 1,
        n >= 1,
        p >= 1,
        0 <= k0 < m * p,
        0 <= h0 < n,
    ensures
        ({
            let r = k0 / p;
            let c = k0 % p;
            let i = r + h0 * m;
            let j = h0 + c * n;
            &&& 0 <= r < m
            &&& 0 <= c < p
            &&& 0 <= i < m * n
            &&& 0 <= j < n * p
            &&& is_matmul_entry(m, n, p, i, j, k0)
            &&& i / m == h0
            &&& forall|a: int, b: int|
                0 <= a < m * n && 0 <= b < n * p && #[trigger] is_matmul_entry(m, n, p, a, b, k0)
                    && a / m == h0 ==> a == i && b == j
        }),
{
    let r = k0 / p;
    let c = k0 % p;
    lemma_fundamental_div_mod(k0, p);
    assert(0 <= r < m) by (nonlinear_arith)
        requires k0 == p * r + c, 0 <= c < p, 0 <= k0 < m * p, p >= 1;
    let i = r + h0 * m;
    let j = h0 + c * n;
    lemma_fundamental_div_mod_converse(i, m, h0, r);
    lemma_fundamental_div_mod_converse(j, n, c, h0);
    assert(0 <= i < m * n) by (nonlinear_arith)
        requires i == r + h0 * m, 0 <= r < m, 0 <= h0 < n;
    assert(0 <= j < n * p) by (nonlinear_arith)
        requires j == h0 + c * n, 0 <= h0 < n, 0 <= c < p;
    assert forall|a: int, b: int|
        0 <= a < m * n && 0 <= b < n * p && #[trigger] is_matmul_entry(m, n, p, a, b, k0) && a / m
            == h0 implies a == i && b == j by {
        lemma_fundamental_div_mod(a, m);
        lemma_fundamental_div_mod(b, n);
        assert(a == m * h0 + r);
        assert(b == n * c + h0);
        assert(m * h0 == h0 * m && n * c == c * n) by (nonlinear_arith);
    }
}

/// Returns the matrix multiplication tensor X representing <m, n, p>: entry `(i, j, k)`
/// (0-based) is one exactly when `i` is the column-major index of `U[r, h]`, `j` that of
/// `V[h, c]` and `k` the row-major index of `W[r, c]` for some `r`, `h`, `c`, and zero
/// otherwise. The shape of X will be (m*n, n*p, m*p).
pub fn matmul(m: usize, n: usize, p: usize) -> (x: Tensor3D)
    requires
        m * n <= usize::MAX,
        n * p <= usize::MAX,
        m * p <= usize::MAX,
        (m * n) * (n * p) <= usize::MAX,
        (m * n) * (n * p) * (m * p) <= usize::MAX,
    ensures
        x.shape == matmul_shape(m, n, p),
        x.wf(),
        forall|i: int, j: int, k: int|
            in_shape(i, j, k, x.shape) ==> #[trigger] x.entry(i, j, k) == if is_matmul_entry(
                m as int,
                n as int,
                p as int,
                i,
                j,
                k,
            ) {
                1i64
            } else {
                0i64
            },
{
    let mut x = Tensor3D::new((m * n, n * p, m * p));
    let mp = m * p;
    let ghost shape = x.shape;
    assert forall|i: int, j: int, k: int| in_shape(i, j, k, shape) implies #[trigger] x.entry(i, j, k) == 0 by {
        lemma_col_major_index_bijective(i, j, k, shape);
    }
    let mut k0: usize = 0;
    while k0 < mp
        invariant
            mp == m * p,
            shape == matmul_shape(m, n, p),
            x.shape == shape,
            x.wf(),
            m * n <= usize::MAX,
            n * p <= usize::MAX,
            (m * n) * (n * p) <= usize::MAX,
            k0 <= mp,
            forall|i: int, j: int, k: int|
                in_shape(i, j, k, shape) ==> #[trigger] x.entry(i, j, k) == if is_matmul_entry(
                    m as int,
                    n as int,
                    p as int,
                    i,
                    j,
                    k,
                ) && k < k0 {
                    1i64
                } else {
                    0i64
                },
        decreases mp - k0,
    {
        assert(m >= 1 && p >= 1) by (nonlinear_arith)
            requires k0 < m * p;
        let k = k0 + 1;
        let (k_r, k_c) = l_star_map_inv(k, m, p);
        let mut h0: usize = 0;
        while h0 < n
            invariant
                mp == m * p,
                shape == matmul_shape(m, n, p),
                x.shape == shape,
                x.wf(),
                m >= 1,
                p >= 1,
                m * n <= usize::MAX,
                n * p <= usize::MAX,
                (m * n) * (n * p) <= usize::MAX,
                k0 < mp,
                k == k0 + 1,
                (k_r as int, k_c as int) == l_star_map_inv_spec(k as int, p as int),
                h0 <= n,
                forall|i: int, j: int, kk: int|
                    in_shape(i, j, kk, shape) ==> #[trigger] x.entry(i, j, kk) == if is_matmul_entry(
                        m as int,
                        n as int,
                        p as int,
                        i,
                        j,
                        kk,
                    ) && (kk < k0 || (kk == k0 && i / (m as int) < h0)) {
                        1i64
                    } else {
                        0i64
                    },
            decreases n - h0,
        {
            let h = h0 + 1;
            proof {
                lemma_matmul_write(m as int, n as int, p as int, k0 as int, h0 as int);
                assert(k_r - 1 == (k0 as int) / (p as int));
                assert(k_c - 1 == (k0 as int) % (p as int));
                assert(l_map_spec(k_r as int, h as int, m as int) - 1 == (k_r - 1) + h0 * m) by (nonlinear_arith)
                    requires h == h0 + 1;
                assert(l_map_spec(h as int, k_c as int, n as int) - 1 == h0 + (k_c - 1) * n) by (nonlinear_arith)
                    requires h == h0 + 1;
            }
            let i = l_map(k_r, h, m, n);
            let j = l_map(h, k_c, n, p);
            let ghost before = x;
            proof {
                assert(shape.0 == m * n && shape.1 == n * p && shape.2 == m * p);
                lemma_col_major_index_bijective((i - 1) as int, (j - 1) as int, k0 as int, shape);
                lemma_index_parts_fit((i - 1) as int, (j - 1) as int, k0 as int, shape.0 as int, shape.1 as int);
                assert(shape.1 >= 1) by (nonlinear_arith)
                    requires shape.1 == n * p, h0 < n, p >= 1;
                assert(k0 * shape.0 <= k0 * shape.0 * shape.1) by (nonlinear_arith)
                    requires shape.1 >= 1;
            }
            x.set(i - 1, j - 1, k0, 1);
            proof {
                let wi = (i - 1) as int;
                let wj = (j - 1) as int;
                assert forall|a: int, b: int, kk: int| in_shape(a, b, kk, shape) implies #[trigger] x.entry(a, b, kk) == if is_matmul_entry(
                    m as int,
                    n as int,
                    p as int,
                    a,
                    b,
                    kk,
                ) && (kk < k0 || (kk == k0 && a / (m as int) < h0 + 1)) {
                    1i64
                } else {
                    0i64
                } by {
                    lemma_set_then_entry(before, x, wi, wj, k0 as int, 1, a, b, kk);
                    if (a, b, kk) != (wi, wj, k0 as int) && kk == k0 && is_matmul_entry(m as int, n as int, p as int, a, b, kk) && a / (m as int) == h0 {
                        assert(a == wi && b == wj);
                    }
                }
            }
            h0 = h;
        }
        proof {
            assert forall|i: int, j: int, kk: int| in_shape(i, j, kk, shape) implies #[trigger] x.entry(i, j, kk) == if is_matmul_entry(
                m as int,
                n as int,
                p as int,
                i,
                j,
                kk,
            ) && kk < k0 + 1 {
                1i64
            } else {
                0i64
            } by {
                if kk == k0 && is_matmul_entry(m as int, n as int, p as int, i, j, kk) {
                    assert(i / (m as int) == j % (n as int));
                    assert(n >= 1) by (nonlinear_arith)
                        requires 0 <= i < m * n;
                    vstd::arithmetic::div_mod::lemma_mod_pos_bound(j, n as int);
                }
            }
        }
        k0 = k0 + 1;
    }
    x
}


/// `f(0) + f(1) + ... + f(len - 1)`.
pub open spec fn sum_to(len: nat, f: spec_fn(int) -> int) -> int
    decreases len,
{
    if len == 0 {
        0
    } else {
        sum_to((len - 1) as nat, f) + f(len - 1)
    }
}

/// Entry `k` of the mode product `X x_1 vec(U)^T x_2 vec(V)^T`:
/// the sum over `j` and `i` of `X[i, j, k] * u[i] * v[j]`.
pub open spec fn mode_product_entry(x: Tensor3D, u: Seq<int>, v: Seq<int>, k: int) -> int {
    sum_to(
        x.shape.1 as nat,
        |j: int| sum_to(x.shape.0 as nat, |i: int| x.entry(i, j, k) * u[i] * v[j]),
    )
}

/// Entry `k` of `vec(W^T)` for `W = U * V`, `U` (`m x n`) and `V` (`n x p`) given by their
/// column-major vectorisations `u` and `v`: with `r = k / p` and `c = k % p`, the sum over
/// `h` of `U[r, h] * V[h, c]`.
pub open spec fn standard_product_entry(m: int, n: int, p: int, u: Seq<int>, v: Seq<int>, k: int) -> int {
    sum_to(n as nat, |h: int| u[k / p + h * m] * v[h + (k % p) * n])
}

proof fn lemma_sum_ext(len: nat, f: spec_fn(int) -> int, g: spec_fn(int) -> int)
    requires
        forall|t: int| 0 <= t < len ==> #[trigger] f(t) == g(t),
    ensures
        sum_to(len, f) == sum_to(len, g),
    decreases len,
{
    if len > 0 {
        lemma_sum_ext((len - 1) as nat, f, g);
    }
}

proof fn lemma_sum_zero(len: nat, f: spec_fn(int) -> int)
    requires
        forall|t: int| 0 <= t < len ==> #[trigger] f(t) == 0,
    ensures
        sum_to(len, f) == 0,
    decreases len,
{
    if len > 0 {
        lemma_sum_zero((len - 1) as nat, f);
    }
}

proof fn lemma_sum_single(len: nat, f: spec_fn(int) -> int, t0: int)
    requires
        0 <= t0 < len,
        forall|t: int| 0 <= t < len && t != t0 ==> #[trigger] f(t) == 0,
    ensures
        sum_to(len, f) == f(t0),
    decreases len,
{
    if len - 1 == t0 {
        lemma_sum_zero((len - 1) as nat, f);
    } else {
        lemma_sum_single((len - 1) as nat, f, t0);
    }
}

proof fn lemma_sum_split(a: nat, b: nat, f: spec_fn(int) -> int)
    ensures
        sum_to(a + b, f) == sum_to(a, f) + sum_to(b, |t: int| f(a + t)),
    decreases b,
{
    if b > 0 {
        lemma_sum_split(a, (b - 1) as nat, f);
        assert(sum_to(b, |t: int| f(a + t)) == sum_to((b - 1) as nat, |t: int| f(a + t)) + f(a + b - 1));
        assert((a + b - 1) as nat == (a + (b - 1)) as nat);
    }
}

/// The multiplication tensor does compute the product: for every `u` (the column-major
/// vectorisation of an `m x n` matrix `U`) and `v` (that of an `n x p` matrix `V`), entry
/// `k` of the mode product of the tensor that `matmul(m, n, p)` returns is entry `k` of
/// `vec(W^T)` for `W = U * V`.
pub proof fn lemma_matmul_tensor_computes_product(
    m: usize,
    n: usize,
    p: usize,
    x: Tensor3D,
    u: Seq<int>,
    v: Seq<int>,
    k: int,
)
    requires
        x.shape == matmul_shape(m, n, p),
        m * n <= usize::MAX,
        n * p <= usize::MAX,
        m * p <= usize::MAX,
        forall|i: int, j: int, kk: int|
            in_shape(i, j, kk, x.shape) ==> #[trigger] x.entry(i, j, kk) == if is_matmul_entry(
                m as int,
                n as int,
                p as int,
                i,
                j,
                kk,
            ) {
                1i64
            } else {
                0i64
            },
        u.len() == m * n,
        v.len() == n * p,
        0 <= k < m * p,
    ensures
        mode_product_entry(x, u, v, k) == standard_product_entry(m as int, n as int, p as int, u, v, k),
{
    let mi = m as int;
    let ni = n as int;
    let pi = p as int;
    assert(x.shape.0 == mi * ni && x.shape.1 == ni * pi && x.shape.2 == mi * pi);
    assert(mi >= 1 && pi >= 1) by (nonlinear_arith)
        requires 0 <= k < mi * pi, mi >= 0, pi >= 0;
    if ni == 0 {
        assert(x.shape.1 == 0) by (nonlinear_arith) requires x.shape.1 == ni * pi, ni == 0;
        return;
    }
    let r = k / pi;
    let c = k % pi;
    lemma_fundamental_div_mod(k, pi);
    assert(0 <= r < mi) by (nonlinear_arith)
        requires k == pi * r + c, 0 <= c < pi, 0 <= k < mi * pi, pi >= 1;
    let inner = |j: int| sum_to(x.shape.0 as nat, |i: int| x.entry(i, j, k) * u[i] * v[j]);
    let g = |j: int| if j / ni == c { u[r + (j % ni) * mi] * v[j] } else { 0 };
    // Each inner sum over `i` keeps at most the one term `i = r + (j % n) * m`.
    assert forall|j: int| 0 <= j < n * p implies #[trigger] inner(j) == g(j) by {
        let fi = |i: int| x.entry(i, j, k) * u[i] * v[j];
        lemma_fundamental_div_mod(j, ni);
        vstd::arithmetic::div_mod::lemma_mod_pos_bound(j, ni);
        if j / ni == c {
            let h = j % ni;
            let i0 = r + h * mi;
            lemma_fundamental_div_mod_converse(i0, mi, h, r);
            assert(0 <= i0 < mi * ni) by (nonlinear_arith)
                requires i0 == r + h * mi, 0 <= r < mi, 0 <= h < ni;
            assert forall|i: int| 0 <= i < m * n && i != i0 implies #[trigger] fi(i) == 0 by {
                lemma_fundamental_div_mod(i, mi);
                if is_matmul_entry(mi, ni, pi, i, j, k) {
                    assert(i == mi * h + r);
                    assert(mi * h == h * mi) by (nonlinear_arith);
                }
                assert(in_shape(i, j, k, x.shape));
                assert(x.entry(i, j, k) == 0);
                assert(fi(i) == x.entry(i, j, k) * u[i] * v[j]);
            }
            assert(in_shape(i0, j, k, x.shape));
            assert(is_matmul_entry(mi, ni, pi, i0, j, k));
            assert(x.entry(i0, j, k) == 1);
            lemma_sum_single(x.shape.0 as nat, fi, i0);
        } else {
            assert forall|i: int| 0 <= i < m * n implies #[trigger] fi(i) == 0 by {
                assert(in_shape(i, j, k, x.shape));
                assert(!is_matmul_entry(mi, ni, pi, i, j, k));
                assert(x.entry(i, j, k) == 0);
                assert(fi(i) == x.entry(i, j, k) * u[i] * v[j]);
                assert(x.entry(i, j, k) * u[i] * v[j] == 0) by (nonlinear_arith)
                    requires x.entry(i, j, k) == 0;
            }
            lemma_sum_zero(x.shape.0 as nat, fi);
        }
    }
    lemma_sum_ext(x.shape.1 as nat, inner, g);
    // The outer sum over `j` keeps the block `c * n .. c * n + n`.
    let a = (c * ni) as nat;
    assert(0 <= c * ni && c * ni + ni <= ni * pi) by (nonlinear_arith)
        requires 0 <= c < pi, ni >= 0;
    let rest = (ni * pi - c * ni - ni) as nat;
    let g2 = |t: int| g(a + t);
    let g3 = |s: int| g2(ni + s);
    let target = |h: int| u[k / pi + h * mi] * v[h + (k % pi) * ni];
    lemma_sum_split(a, (ni + rest) as nat, g);
    lemma_sum_split(ni as nat, rest, g2);
    assert(a + (ni + rest) == ni * pi);
    assert forall|t: int| 0 <= t < a implies #[trigger] g(t) == 0 by {
        assert(t / ni < c) by {
            vstd::arithmetic::div_mod::lemma_div_is_ordered(t, c * ni - 1, ni);
            assert(c * ni - 1 < c * ni);
            vstd::arithmetic::div_mod::lemma_div_by_multiple_is_strongly_ordered(t, c * ni, c, ni);
            vstd::arithmetic::div_mod::lemma_div_by_multiple(c, ni);
        }
    }
    lemma_sum_zero(a, g);
    assert forall|t: int| 0 <= t < rest implies #[trigger] g3(t) == 0 by {
        let jj = a + ni + t;
        assert(jj >= (c + 1) * ni) by (nonlinear_arith) requires jj == c * ni + ni + t, t >= 0;
        vstd::arithmetic::div_mod::lemma_div_is_ordered((c + 1) * ni, jj, ni);
        vstd::arithmetic::div_mod::lemma_div_by_multiple(c + 1, ni);
    }
    lemma_sum_zero(rest, g3);
    assert forall|t: int| 0 <= t < ni implies #[trigger] g2(t) == target(t) by {
        lemma_fundamental_div_mod_converse(a + t, ni, c, t);
        assert(a + t == t + c * ni);
    }
    lemma_sum_ext(ni as nat, g2, target);
}

} // verus!
