//! Index arithmetic, planning and file-format logic behind fast (CP-decomposition
//! based) matrix multiplication, with their contracts proved by Verus.
pub mod l_map;
pub mod decimal;
pub mod parallelism_mode;
pub mod matmul;
pub mod dynamic_peeling;
pub mod text;
pub mod cp;
pub mod loader;
pub mod tensor;
pub mod benchmark;
pub mod mkl;
