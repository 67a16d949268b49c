# fast_matmul

Fast matrix multiplication from Canonical Polyadic (CP) decompositions of the matrix
multiplication tensor (Strassen and others), split into a library verified with Verus
and a thin program around it.

`src/` (verified):

- `l_map`: the 1-indexed column-major and row-major vectorisation maps and their inverses.
- `tensor`: the `<m, n, p>` multiplication tensor and its column-major storage, with the
  proof that its mode product is the matrix product.
- `matmul`: the plan of the recursive multiplication (stop, CP product, peeling, split),
  block grids, the parallelism of child products, thread-count choice, and the row-major
  tensor type.
- `dynamic_peeling`: the core and boundary regions of one peeling step, with the proof
  that they compute every entry once over the whole inner dimension.
- `cp`, `loader`, `text`: the text format of decompositions and the checks a loaded
  decomposition passes, including the derivation of its base shape.
- `parallelism_mode`, `decimal`: parallelism and backend choices, and their error messages.
- `benchmark`, `mkl`: result-file columns and parsing, sampling and thread settings.

`app/`: the `f64` arithmetic with faer and MKL, file and environment access, and the
Criterion benchmarks, all driven by the library's decisions.
