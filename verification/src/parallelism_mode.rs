//! How the recursive multiplication spreads work over threads, and which base
//! multiplication it falls back to.
use crate::decimal::{int_decimal, push_i32_decimal};
use std::convert::TryFrom;
use vstd::prelude::*;
use vstd::std_specs::convert::TryFromSpecImpl;

verus! {

/// The mode of parallel task execution to use in the fast matrix multiplication algorithm.
#[derive(Debug, Clone, Copy, PartialEq, Eq, Structural)]
pub enum ParallelismMode {
    /// Depth-First Search (DFS) parallelism:
    /// Processes recursive steps sequentially and parallelizes inside the base/leaf GEMM calls.
    Dfs,
    /// Breadth-First Search (BFS) parallelism:
    /// Spawns recursive tasks in parallel and runs the base/leaf GEMM calls sequentially.
    Bfs,
    /// Hybrid parallelism:
    /// Spawns recursive tasks in parallel at the top levels, and switches to DFS style (sequential tasks
    /// with multithreaded GEMM) at the lower levels once thread capacity is saturated.
    Hybrid,
    /// Single-threaded execution (completely sequential).
    Sequential,
}

/// The base matrix multiplication implementation to use.
#[derive(Debug, Clone, Copy, PartialEq, Eq, Structural)]
pub enum BaseMatMul {
    /// Use classical matrix multiplication from the `faer` library.
    Faer,
    /// Use Intel MKL `dgemm` (via FFI wrappers).
    Dgemm,
}

/// The mode with code `value` (0 Dfs, 1 Bfs, 2 Hybrid, 3 Sequential), if any.
pub open spec fn parallelism_mode_of(value: int) -> Option<ParallelismMode> {
    if value == 0 {
        Some(ParallelismMode::Dfs)
    } else if value == 1 {
        Some(ParallelismMode::Bfs)
    } else if value == 2 {
        Some(ParallelismMode::Hybrid)
    } else if value == 3 {
        Some(ParallelismMode::Sequential)
    } else {
        None
    }
}

/// The backend with code `value` (0 Faer, 1 Dgemm), if any.
pub open spec fn base_matmul_of(value: int) -> Option<BaseMatMul> {
    if value == 0 {
        Some(BaseMatMul::Faer)
    } else if value == 1 {
        Some(BaseMatMul::Dgemm)
    } else {
        None
    }
}

/// The message of the error for an invalid parallelism mode code.
pub open spec fn invalid_mode_message(value: int) -> Seq<char> {
    "Invalid parallelism mode: "@ + int_decimal(value)
        + ". Must be 0 (Dfs), 1 (Bfs), 2 (Hybrid), or 3 (Sequential)."@
}

/// The message of the error for an invalid base matmul code.
pub open spec fn invalid_base_message(value: int) -> Seq<char> {
    "Invalid base matmul choice: "@ + int_decimal(value) + ". Must be 0 (Faer) or 1 (Dgemm)."@
}

fn invalid_mode_error(value: i32) -> (e: String)
    ensures
        e@ == invalid_mode_message(value as int),
{
    let mut e = String::from_str("Invalid parallelism mode: ");
    push_i32_decimal(&mut e, value);
    e.append(". Must be 0 (Dfs), 1 (Bfs), 2 (Hybrid), or 3 (Sequential).");
    e
}

fn invalid_base_error(value: i32) -> (e: String)
    ensures
        e@ == invalid_base_message(value as int),
{
    let mut e = String::from_str("Invalid base matmul choice: ");
    push_i32_decimal(&mut e, value);
    e.append(". Must be 0 (Faer) or 1 (Dgemm).");
    e
}

impl TryFrom<i32> for ParallelismMode {
    type Error = String;

    /// Attempts to convert an `i32` value to a `ParallelismMode`.
    ///
    /// # Errors
    ///
    /// Returns an error if the value is not in the range `0..=3`.
    fn try_from(value: i32) -> (r: Result<Self, Self::Error>)
        ensures
            r is Ok <==> parallelism_mode_of(value as int) is Some,
            r matches Ok(mode) ==> parallelism_mode_of(value as int) == Some(mode),
            r matches Err(e) ==> e@ == invalid_mode_message(value as int),
    {
        match value {
            0 => Ok(ParallelismMode::Dfs),
            1 => Ok(ParallelismMode::Bfs),
            2 => Ok(ParallelismMode::Hybrid),
            3 => Ok(ParallelismMode::Sequential),
            _ => Err(invalid_mode_error(value)),
        }
    }
}

/// The contract of `try_from` above states the result, error message included. The
/// trait-level form equates the result with one spec value, which an error `String` cannot
/// be proved equal to, so this impl does not claim it (`obeys_try_from_spec` is false).
impl TryFromSpecImpl<i32> for ParallelismMode {
    open spec fn obeys_try_from_spec() -> bool {
        false
    }

    open spec fn try_from_spec(v: i32) -> Result<Self, String> {
        match parallelism_mode_of(v as int) {
            Some(mode) => Ok(mode),
            None => Err(arbitrary()),
        }
    }
}

impl TryFrom<i32> for BaseMatMul {
    type Error = String;

    /// Attempts to convert an `i32` value to a `BaseMatMul`.
    ///
    /// # Errors
    ///
    /// Returns an error if the value is not `0` or `1`.
    fn try_from(value: i32) -> (r: Result<Self, Self::Error>)
        ensures
            r is Ok <==> base_matmul_of(value as int) is Some,
            r matches Ok(base) ==> base_matmul_of(value as int) == Some(base),
            r matches Err(e) ==> e@ == invalid_base_message(value as int),
    {
        match value {
            0 => Ok(BaseMatMul::Faer),
            1 => Ok(BaseMatMul::Dgemm),
            _ => Err(invalid_base_error(value)),
        }
    }
}

/// The contract of `try_from` above states the result, error message included. The
/// trait-level form equates the result with one spec value, which an error `String` cannot
/// be proved equal to, so this impl does not claim it (`obeys_try_from_spec` is false).
impl TryFromSpecImpl<i32> for BaseMatMul {
    open spec fn obeys_try_from_spec() -> bool {
        false
    }

    open spec fn try_from_spec(v: i32) -> Result<Self, String> {
        match base_matmul_of(v as int) {
            Some(base) => Ok(base),
            None => Err(arbitrary()),
        }
    }
}

} // verus!
