//! How the MKL `dgemm` backend is called: its thread count, and the checks and
//! conversions that come before a call.
use vstd::prelude::*;

verus! {

/// The thread count handed to MKL for a request of `num_threads`, `max_threads` being the
/// maximum that MKL reported before any adjustment: setting 1 runs sequentially, and any
/// request `<= 0` restores the maximum.
pub fn mkl_thread_count(num_threads: i32, max_threads: i32) -> (t: i32)
    ensures
        t == if num_threads <= 0 {
            max_threads
        } else {
            num_threads
        },
{
    if num_threads <= 0 {
        max_threads
    } else {
        num_threads
    }
}

/// The request that the base multiplication makes before calling MKL: `0` (all threads)
/// when it runs multithreaded, `1` otherwise.
pub fn mkl_thread_request(multithreaded: bool) -> (t: i32)
    ensures
        t == if multithreaded {
            0i32
        } else {
            1i32
        },
{
    if multithreaded {
        0
    } else {
        1
    }
}


/// What multiplying an `m x k` by a `k x n` matrix into `C` with `dgemm` comes to.
#[derive(Debug, Clone, Copy, PartialEq, Eq, Structural)]
pub enum DgemmStep {
    /// A dimension is zero and the product is added to `C`: nothing to do.
    Nothing,
    /// A dimension is zero and the product replaces `C`: fill `C` with zeros.
    ZeroFill,
    /// Call `dgemm` with these sizes and leading dimensions (column strides), adding to `C`
    /// (`beta = 1`) when `accumulate` holds and replacing it (`beta = 0`) otherwise.
    Call { m: i32, n: i32, k: i32, lda: i32, ldb: i32, ldc: i32, accumulate: bool },
}

/// Why a `dgemm` call cannot be made.
#[derive(Debug, Clone, Copy, PartialEq, Eq, Structural)]
pub enum DgemmError {
    /// `A` is not column-major (its row stride is not 1).
    ANotColumnMajor,
    /// `B` is not column-major.
    BNotColumnMajor,
    /// `C` is not column-major.
    CNotColumnMajor,
    /// `m` does not fit in `i32`.
    MTooLarge,
    /// `n` does not fit in `i32`.
    NTooLarge,
    /// `k` does not fit in `i32`.
    KTooLarge,
    /// The column stride of `A` does not fit in `i32`.
    LdaTooLarge,
    /// The column stride of `B` does not fit in `i32`.
    LdbTooLarge,
    /// The column stride of `C` does not fit in `i32`.
    LdcTooLarge,
}

/// Whether `x` fits in `i32`.
pub open spec fn fits_i32(x: int) -> bool {
    i32::MIN <= x <= i32::MAX
}

/// The step for `C (m x n) = A (m x k) * B (k x n)`, given the row and column strides of
/// the three matrices: with a zero dimension nothing is called; otherwise every matrix must
/// be column-major, and the sizes and column strides must fit in `i32`, checked in the
/// order `A`, `B`, `C`, then `m`, `n`, `k`, `lda`, `ldb`, `ldc`.
pub open spec fn dgemm_step_spec(
    m: int,
    k: int,
    n: int,
    accumulate: bool,
    row_strides: (int, int, int),
    col_strides: (int, int, int),
) -> Result<DgemmStep, DgemmError> {
    if m == 0 || n == 0 || k == 0 {
        Ok(if accumulate { DgemmStep::Nothing } else { DgemmStep::ZeroFill })
    } else if row_strides.0 != 1 {
        Err(DgemmError::ANotColumnMajor)
    } else if row_strides.1 != 1 {
        Err(DgemmError::BNotColumnMajor)
    } else if row_strides.2 != 1 {
        Err(DgemmError::CNotColumnMajor)
    } else if !fits_i32(m) {
        Err(DgemmError::MTooLarge)
    } else if !fits_i32(n) {
        Err(DgemmError::NTooLarge)
    } else if !fits_i32(k) {
        Err(DgemmError::KTooLarge)
    } else if !fits_i32(col_strides.0) {
        Err(DgemmError::LdaTooLarge)
    } else if !fits_i32(col_strides.1) {
        Err(DgemmError::LdbTooLarge)
    } else if !fits_i32(col_strides.2) {
        Err(DgemmError::LdcTooLarge)
    } else {
        Ok(
            DgemmStep::Call {
                m: m as i32,
                n: n as i32,
                k: k as i32,
                lda: col_strides.0 as i32,
                ldb: col_strides.1 as i32,
                ldc: col_strides.2 as i32,
                accumulate,
            },
        )
    }
}

/// Decides how `C (m x n) = A (m x k) * B (k x n)` is handed to `dgemm`: nothing or a
/// zero fill when a dimension is zero, otherwise the call with its sizes and leading
/// dimensions converted to `i32`, or the reason why no call can be made.
pub fn dgemm_step(
    m: usize,
    k: usize,
    n: usize,
    accumulate: bool,
    row_strides: (isize, isize, isize),
    col_strides: (isize, isize, isize),
) -> (r: Result<DgemmStep, DgemmError>)
    ensures
        r == dgemm_step_spec(
            m as int,
            k as int,
            n as int,
            accumulate,
            (row_strides.0 as int, row_strides.1 as int, row_strides.2 as int),
            (col_strides.0 as int, col_strides.1 as int, col_strides.2 as int),
        ),
{
    if m == 0 || n == 0 || k == 0 {
        return Ok(if accumulate { DgemmStep::Nothing } else { DgemmStep::ZeroFill });
    }
    if row_strides.0 != 1 {
        return Err(DgemmError::ANotColumnMajor);
    }
    if row_strides.1 != 1 {
        return Err(DgemmError::BNotColumnMajor);
    }
    if row_strides.2 != 1 {
        return Err(DgemmError::CNotColumnMajor);
    }
    let max: usize = 0x7fff_ffff;
    if m > max {
        return Err(DgemmError::MTooLarge);
    }
    if n > max {
        return Err(DgemmError::NTooLarge);
    }
    if k > max {
        return Err(DgemmError::KTooLarge);
    }
    let lo: isize = -0x8000_0000;
    let hi: isize = 0x7fff_ffff;
    if col_strides.0 < lo || col_strides.0 > hi {
        return Err(DgemmError::LdaTooLarge);
    }
    if col_strides.1 < lo || col_strides.1 > hi {
        return Err(DgemmError::LdbTooLarge);
    }
    if col_strides.2 < lo || col_strides.2 > hi {
        return Err(DgemmError::LdcTooLarge);
    }
    Ok(
        DgemmStep::Call {
            m: m as i32,
            n: n as i32,
            k: k as i32,
            lda: col_strides.0 as i32,
            ldb: col_strides.1 as i32,
            ldc: col_strides.2 as i32,
            accumulate,
        },
    )
}

} // verus!
