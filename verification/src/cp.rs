//! The text format of Canonical Polyadic (CP) decompositions `[U, V, W]` of matrix
//! multiplication, and the checks that a decomposition read from it passes.
//!
//! A file holds three matrices, each a block of rows of whitespace-separated entries;
//! lines that start with `#` separate the blocks and blank lines are ignored. The
//! entries stay text here: turning them into numbers is left to the caller.
use crate::matmul::CpShape;
use crate::text::{
    chars_of, contains, contains_spec, parse_usize, parse_usize_spec, split_on, split_spec,
    split_whitespace, split_whitespace_spec, trim, trim_spec, views, lemma_split_whitespace_not_empty,
    lemma_trimmed_starts_with_non_whitespace,
};
use vstd::prelude::*;

verus! {

/// A matrix of `rows x cols` textual entries, stored row by row.
#[derive(Debug)]
pub struct TokenMatrix {
    pub rows: usize,
    pub cols: usize,
    pub entries: Vec<Vec<char>>,
}

/// Why a decomposition is refused.
#[derive(Debug, Clone, Copy, PartialEq, Eq, Structural)]
pub enum CpError {
    /// The algorithm's name contains `approx`: approximation algorithms are ignored.
    ApproximationAlgorithm,
    /// The file holds subexpression substitution/elimination information, which is ignored.
    SubstitutionInformation,
    /// A block's rows do not form a matrix: its number of entries is not its number of
    /// rows times the length of its first row.
    InvalidMatrixShape,
    /// The file does not hold exactly three matrices; the number it holds.
    MatrixCount(usize),
    /// `V` does not have as many columns as `U` (the rank).
    VRankMismatch,
    /// `W` does not have as many columns as `U` (the rank).
    WRankMismatch,
    /// `R_U * R_W` does not fit in `usize`.
    DimensionOverflow,
    /// `M^2 = (R_U * R_W) / R_V` is not a perfect square.
    NotPerfectSquare,
    /// `M` is zero, so that no `N` and `P` can be derived.
    ZeroM,
    /// `R_U` is not a multiple of `M`.
    NDerivation,
    /// `R_W` is not a multiple of `M`.
    PDerivation,
    /// `N * P` differs from `R_V`.
    NpMismatch,
    /// The rank given in the file name differs from the number of columns of `U`.
    FilenameRankMismatch { expected: usize, found: usize },
}

/// The blocks of rows of a file's lines: blocks finished by a separator, and the rows of
/// the block still open. Each row is the list of the words of its line.
pub open spec fn blocks_fold(lines: Seq<Seq<char>>) -> (
    Seq<Seq<Seq<Seq<char>>>>,
    Seq<Seq<Seq<char>>>,
)
    decreases lines.len(),
{
    if lines.len() == 0 {
        (seq![], seq![])
    } else {
        let (done, cur) = blocks_fold(lines.drop_last());
        let t = trim_spec(lines.last());
        if t.len() == 0 {
            (done, cur)
        } else if t[0] == '#' {
            if cur.len() > 0 {
                (done.push(cur), seq![])
            } else {
                (done, cur)
            }
        } else {
            (done, cur.push(split_whitespace_spec(t)))
        }
    }
}

/// The blocks of rows that a text holds, in order: its lines (split at `'\n'`) are
/// trimmed, blank ones are skipped, ones that start with `#` close the current block, and
/// every other one is a row whose entries are its words.
pub open spec fn matrix_blocks(content: Seq<char>) -> Seq<Seq<Seq<Seq<char>>>> {
    let (done, cur) = blocks_fold(split_spec(content, '\n'));
    if cur.len() > 0 {
        done.push(cur)
    } else {
        done
    }
}

/// Whether a block of rows forms a matrix: as many entries as rows times the length of
/// the first row.
pub open spec fn block_is_valid(block: Seq<Seq<Seq<char>>>) -> bool {
    block.len() > 0 && block.flatten().len() == block.len() * block[0].len()
}

/// Whether every block of rows forms a matrix.
pub open spec fn all_blocks_valid(blocks: Seq<Seq<Seq<Seq<char>>>>) -> bool {
    forall|k: int| 0 <= k < blocks.len() ==> #[trigger] block_is_valid(blocks[k])
}

/// Whether `m` is the matrix that the block of rows forms.
pub open spec fn is_matrix_of(m: TokenMatrix, block: Seq<Seq<Seq<char>>>) -> bool {
    &&& m.rows == block.len()
    &&& block.len() > 0
    &&& m.cols == block[0].len()
    &&& views(m.entries@) == block.flatten()
}

proof fn lemma_all_valid_push(done: Seq<Seq<Seq<Seq<char>>>>, block: Seq<Seq<Seq<char>>>)
    ensures
        all_blocks_valid(done.push(block)) == (all_blocks_valid(done) && block_is_valid(block)),
{
    let nd = done.push(block);
    if all_blocks_valid(done) && block_is_valid(block) {
        assert forall|k: int| 0 <= k < nd.len() implies #[trigger] block_is_valid(nd[k]) by {
            if k < done.len() {
                assert(nd[k] == done[k]);
            }
        }
    }
    if all_blocks_valid(nd) {
        assert(block_is_valid(nd[done.len() as int]));
        assert forall|k: int| 0 <= k < done.len() implies #[trigger] block_is_valid(done[k]) by {
            assert(nd[k] == done[k]);
            assert(block_is_valid(nd[k]));
        }
    }
}

/// The rows of words held by nested vectors.
pub open spec fn row_views(rows: Seq<Vec<Vec<char>>>) -> Seq<Seq<Seq<char>>> {
    rows.map_values(|r: Vec<Vec<char>>| views(r@))
}

/// The matrix that a nonempty block of rows forms, if it forms one.
fn matrix_from_rows(rows: Vec<Vec<Vec<char>>>) -> (r: Option<TokenMatrix>)
    requires
        rows.len() > 0,
    ensures
        r is Some <==> block_is_valid(row_views(rows@)),
        r matches Some(m) ==> is_matrix_of(m, row_views(rows@)),
{
    let ghost block = row_views(rows@);
    let num_rows = rows.len();
    let num_cols = rows[0].len();
    let mut flat: Vec<Vec<char>> = Vec::new();
    let mut i: usize = 0;
    while i < rows.len()
        invariant
            i <= rows.len(),
            block == row_views(rows@),
            views(flat@) == block.take(i as int).flatten(),
        decreases rows.len() - i,
    {
        let mut k: usize = 0;
        let ghost base = views(flat@);
        while k < rows[i].len()
            invariant
                i < rows.len(),
                k <= rows[i as int].len(),
                block == row_views(rows@),
                views(flat@) == base + views(rows[i as int]@).take(k as int),
            decreases rows[i as int].len() - k,
        {
            let ghost before = flat@;
            flat.push(rows[i][k].clone());
            proof {
                assert(views(flat@) =~= views(before).push(rows[i as int]@[k as int]@));
                assert(views(rows[i as int]@).take(k + 1) =~= views(rows[i as int]@).take(
                    k as int,
                ).push(rows[i as int]@[k as int]@));
            }
            k = k + 1;
        }
        proof {
            assert(views(rows[i as int]@).take(k as int) =~= views(rows[i as int]@));
            assert(block.take(i + 1) =~= block.take(i as int).push(block[i as int]));
            block.take(i as int).lemma_flatten_push(block[i as int]);
        }
        i = i + 1;
    }
    assert(block.take(rows.len() as int) =~= block);
    assert(block.len() == num_rows);
    assert(block[0] == views(rows@[0]@));
    assert(block[0].len() == num_cols);
    assert(views(flat@).len() == flat.len());
    match num_rows.checked_mul(num_cols) {
        Some(size) => {
            if flat.len() == size {
                Some(TokenMatrix { rows: num_rows, cols: num_cols, entries: flat })
            } else {
                None
            }
        },
        None => None,
    }
}

/// The matrices that `content` holds, in order, or `InvalidMatrixShape` when some block
/// of rows does not form a matrix.
pub fn parse_matrix_blocks(content: &Vec<char>) -> (r: Result<Vec<TokenMatrix>, CpError>)
    ensures
        r is Ok <==> all_blocks_valid(matrix_blocks(content@)),
        r matches Err(e) ==> e == CpError::InvalidMatrixShape,
        r matches Ok(ms) ==> ms.len() == matrix_blocks(content@).len() && forall|k: int|
            0 <= k < ms.len() ==> #[trigger] is_matrix_of(ms@[k], matrix_blocks(content@)[k]),
{
    let lines = split_on(content, '\n');
    let ghost all_lines = views(lines@);
    let mut matrices: Vec<TokenMatrix> = Vec::new();
    let mut valid = true;
    let ghost mut done: Seq<Seq<Seq<Seq<char>>>> = seq![];
    let mut cur: Vec<Vec<Vec<char>>> = Vec::new();
    let mut i: usize = 0;
    while i < lines.len()
        invariant
            i <= lines.len(),
            all_lines == views(lines@),
            all_lines == split_spec(content@, '\n'),
            (done, row_views(cur@)) == blocks_fold(all_lines.take(i as int)),
            valid == all_blocks_valid(done),
            valid ==> matrices.len() == done.len(),
            valid ==> forall|k: int|
                0 <= k < matrices.len() ==> #[trigger] is_matrix_of(matrices@[k], done[k]),
        decreases lines.len() - i,
    {
        proof {
            assert(all_lines.take(i + 1).drop_last() =~= all_lines.take(i as int));
            assert(all_lines.take(i + 1).last() == lines@[i as int]@);
        }
        let t = trim(&lines[i]);
        if t.len() == 0 {
        } else if t[0] == '#' {
            if cur.len() > 0 {
                let rows = cur;
                cur = Vec::new();
                let ghost block = row_views(rows@);
                let finished = matrix_from_rows(rows);
                proof {
                    assert(row_views(cur@) =~= seq![]);
                            lemma_all_valid_push(done, block);
                }
                match finished {
                    Some(m) => {
                        if valid {
                            matrices.push(m);
                        }
                    },
                    None => {
                        valid = false;
                    },
                }
                proof {
                    done = done.push(block);
                }
            }
        } else {
            let words = split_whitespace(&t);
            let ghost before = cur@;
            cur.push(words);
            assert(row_views(cur@) =~= row_views(before).push(views(words@)));
        }
        i = i + 1;
    }
    assert(all_lines.take(lines.len() as int) =~= all_lines);
    if cur.len() > 0 {
        let ghost block = row_views(cur@);
        let finished = matrix_from_rows(cur);
        proof {
            lemma_all_valid_push(done, block);
        }
        match finished {
            Some(m) => {
                if valid {
                    matrices.push(m);
                }
            },
            None => {
                valid = false;
            },
        }
        proof {
            done = done.push(block);
        }
    }
    if valid {
        Ok(matrices)
    } else {
        Err(CpError::InvalidMatrixShape)
    }
}


/// `k * k`.
pub open spec fn square(k: nat) -> nat {
    k * k
}

/// The square root of `x`, when `x` is a perfect square.
pub open spec fn exact_sqrt(x: nat) -> Option<nat> {
    if exists|k: nat| #[trigger] square(k) == x {
        Some(choose|k: nat| #[trigger] square(k) == x)
    } else {
        None
    }
}

/// The base shape `(M, N, P)` derived from the numbers of rows `R_U = M * N`,
/// `R_V = N * P` and `R_W = M * P` of the three factor matrices:
/// `M^2 = (R_U * R_W) / R_V`, `N = R_U / M`, `P = R_W / M`, each checked.
pub open spec fn derive_dimensions_spec(r_u: nat, r_v: nat, r_w: nat) -> Result<
    (nat, nat, nat),
    CpError,
> {
    if r_u * r_w > usize::MAX {
        Err(CpError::DimensionOverflow)
    } else {
        let m2 = (r_u * r_w) / r_v;
        match exact_sqrt(m2) {
            None => Err(CpError::NotPerfectSquare),
            Some(m) => if m == 0 {
                Err(CpError::ZeroM)
            } else if m * (r_u / m) != r_u {
                Err(CpError::NDerivation)
            } else if m * (r_w / m) != r_w {
                Err(CpError::PDerivation)
            } else if (r_u / m) * (r_w / m) != r_v {
                Err(CpError::NpMismatch)
            } else {
                Ok((m, r_u / m, r_w / m))
            },
        }
    }
}

proof fn lemma_square_root_unique(a: nat, b: nat)
    requires
        a * a == b * b,
    ensures
        a == b,
{
    if a < b {
        assert(a * a < b * b) by (nonlinear_arith)
            requires a < b;
    } else if b < a {
        assert(b * b < a * a) by (nonlinear_arith)
            requires b < a;
    }
}

/// The largest `k` with `k * k <= x`.
fn integer_sqrt(x: usize) -> (k: usize)
    ensures
        k * k <= x < (k + 1) * (k + 1),
{
    let xx = x as u128;
    let mut lo: u128 = 0;
    let mut hi: u128 = 0x1_0000_0000_0000_0000;
    assert(xx < hi * hi) by (nonlinear_arith)
        requires xx <= usize::MAX, hi == 0x1_0000_0000_0000_0000u128;
    while lo + 1 < hi
        invariant
            lo < hi <= 0x1_0000_0000_0000_0000,
            xx == x,
            lo * lo <= xx,
            xx < hi * hi,
        decreases hi - lo,
    {
        let mid = lo + (hi - lo) / 2;
        assert(mid * mid <= u128::MAX) by (nonlinear_arith)
            requires mid < 0x1_0000_0000_0000_0000u128;
        if mid * mid <= xx {
            lo = mid;
        } else {
            hi = mid;
        }
    }
    assert(lo < 0x1_0000_0000_0000_0000);
    assert(lo * lo <= xx);
    assert(lo <= usize::MAX) by (nonlinear_arith)
        requires lo * lo <= xx, xx <= usize::MAX;
    assert(hi == lo + 1);
    lo as usize
}

/// Derives the base shape `(M, N, P)` of a decomposition from the numbers of rows of
/// `U`, `V` and `W`, as `derive_dimensions_spec` states.
pub fn derive_dimensions(r_u: usize, r_v: usize, r_w: usize) -> (r: Result<
    (usize, usize, usize),
    CpError,
>)
    requires
        r_v >= 1,
    ensures
        r is Ok <==> derive_dimensions_spec(r_u as nat, r_v as nat, r_w as nat) is Ok,
        r matches Ok((m, n, p)) ==> derive_dimensions_spec(r_u as nat, r_v as nat, r_w as nat)
            == Ok::<(nat, nat, nat), CpError>((m as nat, n as nat, p as nat)),
        r matches Err(e) ==> derive_dimensions_spec(r_u as nat, r_v as nat, r_w as nat) == Err::<
            (nat, nat, nat),
            CpError,
        >(e),
{
    let prod = match r_u.checked_mul(r_w) {
        Some(prod) => prod,
        None => {
            return Err(CpError::DimensionOverflow);
        },
    };
    let m2 = prod / r_v;
    let m = integer_sqrt(m2);
    proof {
        if exists|k: nat| #[trigger] square(k) == m2 {
            let k = choose|k: nat| #[trigger] square(k) == m2;
            if k < m {
                assert(k * k < m * m) by (nonlinear_arith) requires k < m;
            } else if k > m {
                assert((m + 1) * (m + 1) <= k * k) by (nonlinear_arith) requires k > m;
            }
        }
    }
    if m * m != m2 {
        return Err(CpError::NotPerfectSquare);
    }
    proof {
        assert(square(m as nat) == m2);
        let k = choose|k: nat| #[trigger] square(k) == m2;
        lemma_square_root_unique(k, m as nat);
    }
    if m == 0 {
        return Err(CpError::ZeroM);
    }
    let n = r_u / m;
    assert(m * n <= r_u) by (nonlinear_arith)
        requires n == r_u / m, m >= 1;
    if m * n != r_u {
        return Err(CpError::NDerivation);
    }
    let p = r_w / m;
    assert(m * p <= r_w) by (nonlinear_arith)
        requires p == r_w / m, m >= 1;
    if m * p != r_w {
        return Err(CpError::PDerivation);
    }
    assert(n * p <= r_u * r_w) by (nonlinear_arith)
        requires n <= r_u, p <= r_w, m >= 1, m * n == r_u, m * p == r_w;
    if n * p != r_v {
        return Err(CpError::NpMismatch);
    }
    Ok((m, n, p))
}

/// The derivation is exact: it succeeds on the row counts of every decomposition of a
/// positive shape `<m, n, p>` (`R_U = m n`, `R_V = n p`, `R_W = m p`) whose product
/// `R_U * R_W` fits in `usize`, and gives that shape back; and whatever it gives back is
/// such a shape.
pub proof fn lemma_derive_dimensions_exact(m: nat, n: nat, p: nat)
    requires
        m >= 1,
        n >= 1,
        p >= 1,
        (m * n) * (m * p) <= usize::MAX,
    ensures
        derive_dimensions_spec(m * n, n * p, m * p) == Ok::<(nat, nat, nat), CpError>((m, n, p)),
{
    let r_u = m * n;
    let r_v = n * p;
    let r_w = m * p;
    assert(r_u * r_w == (m * m) * r_v) by (nonlinear_arith)
        requires r_u == m * n, r_v == n * p, r_w == m * p;
    assert(r_v >= 1) by (nonlinear_arith) requires r_v == n * p, n >= 1, p >= 1;
    vstd::arithmetic::div_mod::lemma_div_by_multiple((m * m) as int, r_v as int);
    assert((r_u * r_w) / r_v == m * m);
    assert(square(m) == m * m);
    let k = choose|k: nat| #[trigger] square(k) == m * m;
    lemma_square_root_unique(k, m);
    assert(exact_sqrt(m * m) == Some(m));
    vstd::arithmetic::div_mod::lemma_div_by_multiple(n as int, m as int);
    vstd::arithmetic::div_mod::lemma_div_by_multiple(p as int, m as int);
    assert(r_u / m == n) by {
        assert(r_u == n * m) by (nonlinear_arith) requires r_u == m * n;
    }
    assert(r_w / m == p) by {
        assert(r_w == p * m) by (nonlinear_arith) requires r_w == m * p;
    }
}

/// What the derivation gives back is a shape whose row counts are the given ones.
pub proof fn lemma_derive_dimensions_sound(r_u: nat, r_v: nat, r_w: nat)
    requires
        r_v >= 1,
        derive_dimensions_spec(r_u, r_v, r_w) is Ok,
    ensures
        ({
            let (m, n, p) = derive_dimensions_spec(r_u, r_v, r_w)->Ok_0;
            &&& m >= 1
            &&& m * n == r_u
            &&& n * p == r_v
            &&& m * p == r_w
        }),
{
}

/// The rank that a file name `name-rank-additions` states, as `parse_rank_from_filename`
/// reads it.
pub open spec fn filename_rank_spec(filename: Seq<char>) -> Option<usize> {
    let parts = split_spec(filename, '-');
    if parts.len() == 3 {
        parse_usize_spec(parts[1])
    } else {
        None
    }
}

/// Helper function to parse the rank from the filename if it matches the pattern name-rank-additions
pub fn parse_rank_from_filename(filename: &str) -> (r: Option<usize>)
    ensures
        r == filename_rank_spec(filename@),
{
    let chars = chars_of(filename);
    let parts = split_on(&chars, '-');
    if parts.len() == 3 {
        assert(views(parts@)[1] == parts@[1]@);
        parse_usize(&parts[1])
    } else {
        None
    }
}

/// Refuses approximation algorithms, whose names contain `approx`.
pub fn check_algorithm_name(name: &str) -> (r: Result<(), CpError>)
    ensures
        r is Err <==> contains_spec(name@, "approx"@),
        r matches Err(e) ==> e == CpError::ApproximationAlgorithm,
{
    let chars = chars_of(name);
    let pattern = chars_of("approx");
    if contains(&chars, &pattern) {
        Err(CpError::ApproximationAlgorithm)
    } else {
        Ok(())
    }
}

/// A name is refused exactly when `approx` occurs in it, wherever: at the start, inside,
/// or at the very end.
pub proof fn lemma_approximation_names_refused(pre: Seq<char>, post: Seq<char>)
    ensures
        contains_spec(pre + "approx"@ + post, "approx"@),
{
    crate::text::lemma_contains_occurrence(pre, "approx"@, post, seq![]);
}

/// The checks that a decomposition file passes, in the order in which they are made; on
/// success, the base shape and rank, and the rank that the file name states, if any.
pub open spec fn cp_check_spec(filename: Seq<char>, content: Seq<char>) -> Result<
    (CpShape, Option<usize>),
    CpError,
> {
    let blocks = matrix_blocks(content);
    if contains_spec(content, "Substitution information"@) {
        Err(CpError::SubstitutionInformation)
    } else if !all_blocks_valid(blocks) {
        Err(CpError::InvalidMatrixShape)
    } else if blocks.len() != 3 {
        Err(CpError::MatrixCount(blocks.len() as usize))
    } else {
        let rank = blocks[0][0].len();
        if blocks[1][0].len() != rank {
            Err(CpError::VRankMismatch)
        } else if blocks[2][0].len() != rank {
            Err(CpError::WRankMismatch)
        } else {
            match derive_dimensions_spec(blocks[0].len(), blocks[1].len(), blocks[2].len()) {
                Err(e) => Err(e),
                Ok((m, n, p)) => {
                    let shape = CpShape {
                        m: m as usize,
                        n: n as usize,
                        p: p as usize,
                        rank: rank as usize,
                    };
                    match filename_rank_spec(filename) {
                        Some(expected) => if expected != rank {
                            Err(CpError::FilenameRankMismatch { expected, found: rank as usize })
                        } else {
                            Ok((shape, Some(expected)))
                        },
                        None => Ok((shape, None)),
                    }
                },
            }
        }
    }
}

/// Every row of every block, and of the block still open, has at least one entry.
proof fn lemma_blocks_fold_rows_not_empty(lines: Seq<Seq<char>>)
    ensures
        forall|b: int, r: int|
            0 <= b < blocks_fold(lines).0.len() && 0 <= r < blocks_fold(lines).0[b].len()
                ==> #[trigger] blocks_fold(lines).0[b][r].len() > 0,
        forall|r: int|
            0 <= r < blocks_fold(lines).1.len() ==> #[trigger] blocks_fold(lines).1[r].len() > 0,
    decreases lines.len(),
{
    if lines.len() > 0 {
        lemma_blocks_fold_rows_not_empty(lines.drop_last());
        let (done, cur) = blocks_fold(lines.drop_last());
        let t = trim_spec(lines.last());
        if t.len() == 0 {
        } else if t[0] == '#' {
            if cur.len() > 0 {
                let nd = done.push(cur);
                assert forall|b: int, r: int| 0 <= b < nd.len() && 0 <= r < nd[b].len() implies
                    #[trigger] nd[b][r].len() > 0 by {
                    if b < done.len() {
                        assert(nd[b] == done[b]);
                    }
                }
            }
        } else {
            lemma_trimmed_starts_with_non_whitespace(lines.last());
            lemma_split_whitespace_not_empty(t);
            let nc = cur.push(split_whitespace_spec(t));
            assert forall|r: int| 0 <= r < nc.len() implies #[trigger] nc[r].len() > 0 by {
                if r < cur.len() {
                    assert(nc[r] == cur[r]);
                }
            }
        }
    }
}

/// Every row of every block that a text holds has at least one entry.
pub proof fn lemma_block_rows_not_empty(content: Seq<char>)
    ensures
        forall|b: int, r: int|
            0 <= b < matrix_blocks(content).len() && 0 <= r < matrix_blocks(content)[b].len()
                ==> #[trigger] matrix_blocks(content)[b][r].len() > 0,
{
    let lines = split_spec(content, '\n');
    lemma_blocks_fold_rows_not_empty(lines);
    let (done, cur) = blocks_fold(lines);
    if cur.len() > 0 {
        let nd = done.push(cur);
        assert forall|b: int, r: int| 0 <= b < nd.len() && 0 <= r < nd[b].len() implies
            #[trigger] nd[b][r].len() > 0 by {
            if b < done.len() {
                assert(nd[b] == done[b]);
            }
        }
    }
}

/// A decomposition that passes the checks fits the shape it reports: `U` has `m n` rows,
/// `V` has `n p` rows and `W` has `m p` rows, all three have `rank` columns, and the base
/// dimensions are positive.
pub proof fn lemma_layout_fits_shape(filename: Seq<char>, content: Seq<char>)
    requires
        cp_check_spec(filename, content) is Ok,
    ensures
        ({
            let blocks = matrix_blocks(content);
            let shape = cp_check_spec(filename, content)->Ok_0.0;
            &&& blocks.len() == 3
            &&& shape.m >= 1 && shape.n >= 1 && shape.p >= 1
            &&& blocks[0].len() == shape.m * shape.n
            &&& blocks[1].len() == shape.n * shape.p
            &&& blocks[2].len() == shape.m * shape.p
            &&& blocks[1][0].len() == blocks[0][0].len()
            &&& blocks[2][0].len() == blocks[0][0].len()
            &&& shape.rank == blocks[0][0].len() as usize
            &&& blocks[0][0].len() >= 1
            &&& blocks[0][0].len() <= usize::MAX ==> shape.rank >= 1
        }),
{
    let blocks = matrix_blocks(content);
    assert(block_is_valid(blocks[0]) && block_is_valid(blocks[1]) && block_is_valid(blocks[2]));
    lemma_block_rows_not_empty(content);
    assert(blocks[0][0].len() > 0);
    let (m, n, p) = derive_dimensions_spec(blocks[0].len(), blocks[1].len(), blocks[2].len())->Ok_0;
    assert(blocks[1].len() >= 1);
    lemma_derive_dimensions_sound(blocks[0].len(), blocks[1].len(), blocks[2].len());
    assert(n >= 1 && p >= 1) by (nonlinear_arith)
        requires m >= 1, m * n == blocks[0].len(), m * p == blocks[2].len(), blocks[0].len() >= 1, blocks[2].len() >= 1;
    assert(blocks[0].len() <= blocks[0].len() * blocks[2].len()) by (nonlinear_arith)
        requires blocks[2].len() >= 1;
    assert(blocks[2].len() <= blocks[0].len() * blocks[2].len()) by (nonlinear_arith)
        requires blocks[0].len() >= 1;
    assert(m <= m * n && n <= m * n && p <= m * p) by (nonlinear_arith)
        requires m >= 1, n >= 1, p >= 1;
}

/// A CP decomposition `[U, V, W]` as read from its file, with entries still as text.
#[derive(Debug)]
pub struct CpLayout {
    pub u: TokenMatrix,
    pub v: TokenMatrix,
    pub w: TokenMatrix,
    /// The base shape `<m, n, p>` and the rank (number of columns of each factor).
    pub shape: CpShape,
    /// The rank stated by the file name, when it has the form `name-rank-additions`.
    pub filename_rank: Option<usize>,
}

/// Reads a CP decomposition from the text of its file: rejects subexpression-eliminated
/// algorithms, requires three matrices whose columns agree (the rank), derives the base
/// shape `(M, N, P)` from their numbers of rows, and checks the rank that the file name
/// states, if it states one.
pub fn cp_layout_from_text(filename: &str, content: &str) -> (r: Result<CpLayout, CpError>)
    ensures
        r is Ok <==> cp_check_spec(filename@, content@) is Ok,
        r matches Err(e) ==> cp_check_spec(filename@, content@) == Err::<
            (CpShape, Option<usize>),
            CpError,
        >(e),
        r matches Ok(layout) ==> {
            &&& cp_check_spec(filename@, content@) == Ok::<(CpShape, Option<usize>), CpError>(
                (layout.shape, layout.filename_rank),
            )
            &&& is_matrix_of(layout.u, matrix_blocks(content@)[0])
            &&& is_matrix_of(layout.v, matrix_blocks(content@)[1])
            &&& is_matrix_of(layout.w, matrix_blocks(content@)[2])
            &&& layout.shape.m >= 1 && layout.shape.n >= 1 && layout.shape.p >= 1
            &&& layout.shape.rank >= 1
            &&& layout.u.rows == layout.shape.m * layout.shape.n
            &&& layout.v.rows == layout.shape.n * layout.shape.p
            &&& layout.w.rows == layout.shape.m * layout.shape.p
            &&& layout.u.cols == layout.shape.rank && layout.v.cols == layout.shape.rank
                && layout.w.cols == layout.shape.rank
        },
{
    let chars = chars_of(content);
    let marker = chars_of("Substitution information");
    if contains(&chars, &marker) {
        return Err(CpError::SubstitutionInformation);
    }
    let mut matrices = match parse_matrix_blocks(&chars) {
        Ok(ms) => ms,
        Err(e) => {
            return Err(e);
        },
    };
    let ghost blocks = matrix_blocks(content@);
    if matrices.len() != 3 {
        return Err(CpError::MatrixCount(matrices.len()));
    }
    proof {
        assert(is_matrix_of(matrices@[0], blocks[0]));
        assert(is_matrix_of(matrices@[1], blocks[1]));
        assert(is_matrix_of(matrices@[2], blocks[2]));
    }
    let w = matrices.pop().unwrap();
    let v = matrices.pop().unwrap();
    let u = matrices.pop().unwrap();
    let rank = u.cols;
    if v.cols != rank {
        return Err(CpError::VRankMismatch);
    }
    if w.cols != rank {
        return Err(CpError::WRankMismatch);
    }
    let (m, n, p) = match derive_dimensions(u.rows, v.rows, w.rows) {
        Ok(dims) => dims,
        Err(e) => {
            return Err(e);
        },
    };
    let filename_rank = parse_rank_from_filename(filename);
    if let Some(expected) = filename_rank {
        if expected != rank {
            return Err(CpError::FilenameRankMismatch { expected, found: rank });
        }
    }
    proof {
        lemma_layout_fits_shape(filename@, content@);
    }
    Ok(CpLayout { u, v, w, shape: CpShape { m, n, p, rank }, filename_rank })
}

} // verus!
