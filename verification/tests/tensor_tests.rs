use fast_matmul::l_map::{l_map, l_map_inv};
use fast_matmul::tensor::{matmul, Tensor3D};
use fast_matmul::matmul::Tensor3;

const EXPECTED_X1: [f64; 16] = [
    1.0, 0.0, 0.0, 0.0, 0.0, 0.0, 0.0, 0.0, 0.0, 1.0, 0.0, 0.0, 0.0, 0.0, 0.0, 0.0,
];
const EXPECTED_X2: [f64; 16] = [
    0.0, 0.0, 1.0, 0.0, 0.0, 0.0, 0.0, 0.0, 0.0, 0.0, 0.0, 1.0, 0.0, 0.0, 0.0, 0.0,
];
const EXPECTED_X3: [f64; 16] = [
    0.0, 0.0, 0.0, 0.0, 1.0, 0.0, 0.0, 0.0, 0.0, 0.0, 0.0, 0.0, 0.0, 1.0, 0.0, 0.0,
];
const EXPECTED_X4: [f64; 16] = [
    0.0, 0.0, 0.0, 0.0, 0.0, 0.0, 1.0, 0.0, 0.0, 0.0, 0.0, 0.0, 0.0, 0.0, 0.0, 1.0,
];

#[test]
fn tensor_tests_test_example_2x2_slices() {
    let x = matmul(2, 2, 2);

    // Assert tensor shape is 4x4x4
    assert_eq!(x.shape, (4, 4, 4));

    for i in 0..4 {
        for j in 0..4 {
            assert_eq!(x.get(i, j, 0) as f64, EXPECTED_X1[i * 4 + j], "Mismatch at slice 0, index ({}, {})", i, j);
            assert_eq!(x.get(i, j, 1) as f64, EXPECTED_X2[i * 4 + j], "Mismatch at slice 1, index ({}, {})", i, j);
            assert_eq!(x.get(i, j, 2) as f64, EXPECTED_X3[i * 4 + j], "Mismatch at slice 2, index ({}, {})", i, j);
            assert_eq!(x.get(i, j, 3) as f64, EXPECTED_X4[i * 4 + j], "Mismatch at slice 3, index ({}, {})", i, j);
        }
    }
}

#[test]
fn matmul_test_matlab_mappings() {
    // sub2ind([2, 3], 1, 1) = 1
    assert_eq!(l_map(1, 1, 2, 3), 1);
    // sub2ind([2, 3], 2, 1) = 2
    assert_eq!(l_map(2, 1, 2, 3), 2);
    // sub2ind([2, 3], 1, 2) = 3
    assert_eq!(l_map(1, 2, 2, 3), 3);
    // sub2ind([2, 3], 2, 3) = 6
    assert_eq!(l_map(2, 3, 2, 3), 6);

    // [r, c] = ind2sub([2, 3], 3) -> (1, 2)
    assert_eq!(l_map_inv(3, 2, 3), (1, 2));
    // [r, c] = ind2sub([2, 3], 6) -> (2, 3)
    assert_eq!(l_map_inv(6, 2, 3), (2, 3));
}

#[test]
fn matmul_test_example_2x2_slices() {
    let x = matmul(2, 2, 2);

    // Assert tensor shape is 4x4x4
    assert_eq!(x.shape, (4, 4, 4));

    // Front slices of the <2, 2, 2> tensor:
    // X1 = [1 0 0 0; 0 0 0 0; 0 1 0 0; 0 0 0 0]
    // X2 = [0 0 1 0; 0 0 0 0; 0 0 0 1; 0 0 0 0]
    // X3 = [0 0 0 0; 1 0 0 0; 0 0 0 0; 0 1 0 0]
    // X4 = [0 0 0 0; 0 0 1 0; 0 0 0 0; 0 0 0 1]
    for i in 0..4 {
        for j in 0..4 {
            assert_eq!(x.get(i, j, 0) as f64, EXPECTED_X1[i * 4 + j], "Mismatch at slice 0, index ({}, {})", i, j);
            assert_eq!(x.get(i, j, 1) as f64, EXPECTED_X2[i * 4 + j], "Mismatch at slice 1, index ({}, {})", i, j);
            assert_eq!(x.get(i, j, 2) as f64, EXPECTED_X3[i * 4 + j], "Mismatch at slice 2, index ({}, {})", i, j);
            assert_eq!(x.get(i, j, 3) as f64, EXPECTED_X4[i * 4 + j], "Mismatch at slice 3, index ({}, {})", i, j);
        }
    }
}

/// Exact integer version of the mode product `X x_1 vec(U)^T x_2 vec(V)^T`.
fn mode_product(x: &Tensor3D, u: &[i64], v: &[i64]) -> Vec<i64> {
    let (si, sj, sk) = x.shape;
    let mut z = vec![0i64; sk];
    for k in 0..sk {
        for j in 0..sj {
            for i in 0..si {
                z[k] += x.get(i, j, k) * u[i] * v[j];
            }
        }
    }
    z
}

/// Exact integer `vec(W^T)` for `W = U * V`, `U` and `V` given column-major.
fn standard_vec_wt(m: usize, n: usize, p: usize, u: &[i64], v: &[i64]) -> Vec<i64> {
    let mut w = vec![0i64; m * p];
    for r in 0..m {
        for c in 0..p {
            let mut sum = 0;
            for h in 0..n {
                sum += u[r + h * m] * v[h + c * n];
            }
            w[r * p + c] = sum;
        }
    }
    w
}

#[test]
fn matmul_tensor_computes_the_product_exactly() {
    for &(m, n, p) in &[(2, 2, 2), (3, 2, 4), (4, 3, 2), (5, 5, 5), (1, 4, 3), (3, 1, 3)] {
        let x = matmul(m, n, p);
        assert_eq!(x.shape, (m * n, n * p, m * p));
        let u: Vec<i64> = (0..(m * n) as i64).map(|t| (t * 7 + 3) % 11 - 5).collect();
        let v: Vec<i64> = (0..(n * p) as i64).map(|t| (t * 5 + 1) % 13 - 6).collect();
        assert_eq!(mode_product(&x, &u, &v), standard_vec_wt(m, n, p, &u, &v));
        // every slice holds exactly n ones
        for k in 0..m * p {
            let mut ones = 0;
            for i in 0..m * n {
                for j in 0..n * p {
                    ones += x.get(i, j, k);
                }
            }
            assert_eq!(ones, n as i64);
        }
    }
}

#[test]
fn tensor3d_set_then_get() {
    let mut t = Tensor3D::new((2, 3, 4));
    assert_eq!(t.data.len(), 24);
    assert_eq!(t.index(1, 2, 3), 1 + 2 * 2 + 3 * 2 * 3);
    t.set(1, 2, 3, 9);
    assert_eq!(t.get(1, 2, 3), 9);
    assert_eq!(t.get(0, 2, 3), 0);
    assert_eq!(t.data[23], 9);
}

#[test]
fn tensor3_is_row_major() {
    let mut t = Tensor3::zeros((2, 3, 4));
    assert_eq!(t.dim(), (2, 3, 4));
    assert_eq!(t.data.len(), 24);
    *t.index_mut([1, 0, 2]) = 5;
    assert_eq!(t.index([1, 0, 2]), 5);
    assert_eq!(t.data[1 * 3 * 4 + 0 * 4 + 2], 5);
    assert_eq!(t.index([0, 0, 0]), 0);
}

#[test]
fn tensors_clone_their_entries() {
    let mut t = Tensor3D::new((2, 2, 2));
    t.set(1, 0, 1, 4);
    let c = t.clone();
    assert_eq!(c.shape, (2, 2, 2));
    assert_eq!(c.get(1, 0, 1), 4);
    let mut r = Tensor3::zeros((1, 2, 3));
    *r.index_mut([0, 1, 2]) = 7;
    let rc = r.clone();
    assert_eq!(rc.index([0, 1, 2]), 7);
    assert_eq!(rc.dim(), (1, 2, 3));
}
