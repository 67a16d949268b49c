use fast_matmul::cp::{check_algorithm_name, cp_layout_from_text, derive_dimensions, parse_rank_from_filename, CpError, TokenMatrix};
use fast_matmul::loader::parse_strassen_matrices;
use fast_matmul::matmul::CpShape;

const STRASSEN_TEXT: &str = "# U
1 0 1 0 1 -1 0
0 0 0 0 1 0 1
0 1 0 0 0 1 0
1 1 0 1 0 0 -1
# V
1 1 0 -1 0 1 0
0 0 1 0 0 1 0
0 0 0 1 0 0 1
1 0 -1 0 1 0 1
# W
1 0 0 1 -1 0 1
0 0 1 0 1 0 0
0 1 0 1 0 0 0
1 -1 1 0 0 1 0
";

fn entry(m: &TokenMatrix, r: usize, c: usize) -> i64 {
    let s: String = m.entries[r * m.cols + c].iter().collect();
    s.parse().unwrap()
}

#[test]
fn strassen_layout_multiplies_integer_matrices() {
    let layout = cp_layout_from_text("strassen", STRASSEN_TEXT).unwrap();
    assert_eq!(layout.shape, CpShape { m: 2, n: 2, p: 2, rank: 7 });
    assert_eq!(layout.filename_rank, None);
    assert_eq!((layout.u.rows, layout.v.rows, layout.w.rows), (4, 4, 4));
    // C = A * B through the decomposition, row-major vectorisations
    let a = [3i64, -1, 4, 2];
    let b = [5i64, 7, -2, 6];
    let mut c = [0i64; 4];
    for l in 0..7 {
        let s: i64 = (0..4).map(|i| entry(&layout.u, i, l) * a[i]).sum();
        let t: i64 = (0..4).map(|i| entry(&layout.v, i, l) * b[i]).sum();
        for i in 0..4 {
            c[i] += s * t * entry(&layout.w, i, l);
        }
    }
    assert_eq!(c, [3 * 5 + -1 * -2, 3 * 7 + -1 * 6, 4 * 5 + 2 * -2, 4 * 7 + 2 * 6]);
}

#[test]
fn loader_reads_three_matrices() {
    let (u, v, w) = parse_strassen_matrices(STRASSEN_TEXT).unwrap();
    assert_eq!((u.rows, u.cols, v.rows, v.cols, w.rows, w.cols), (4, 7, 4, 7, 4, 7));
    assert_eq!(entry(&u, 3, 6), -1);
    assert!(matches!(parse_strassen_matrices("1 2\n#\n3 4\n"), Err(CpError::MatrixCount(2))));
    assert!(matches!(parse_strassen_matrices("1 2\n3\n#\n1\n#\n1\n"), Err(CpError::InvalidMatrixShape)));
}

#[test]
fn blank_lines_comments_and_whitespace() {
    let text = "\n  # header\r\n\t1   2\r\n3 4\n\n#\n#\n 5 \n#x\n6\n";
    let (u, v, w) = parse_strassen_matrices(text).unwrap();
    assert_eq!((u.rows, u.cols), (2, 2));
    assert_eq!((v.rows, v.cols), (1, 1));
    assert_eq!((w.rows, w.cols), (1, 1));
    let tokens: Vec<String> = u.entries.iter().map(|t| t.iter().collect()).collect();
    assert_eq!(tokens, vec!["1", "2", "3", "4"]);
}

#[test]
fn rejected_decompositions() {
    assert_eq!(check_algorithm_name("grey-approx-322"), Err(CpError::ApproximationAlgorithm));
    assert_eq!(check_algorithm_name("grey322-11-50"), Ok(()));
    let subst = format!("{}# Substitution information\n", STRASSEN_TEXT);
    assert!(matches!(cp_layout_from_text("strassen", &subst), Err(CpError::SubstitutionInformation)));
    assert!(matches!(cp_layout_from_text("x", "1 2\n#\n1 2\n"), Err(CpError::MatrixCount(2))));
    assert!(matches!(cp_layout_from_text("x", "1 2\n#\n1\n#\n1 2\n"), Err(CpError::VRankMismatch)));
    assert!(matches!(cp_layout_from_text("x", "1 2\n#\n1 2\n#\n1\n"), Err(CpError::WRankMismatch)));
    // R_U = 2, R_V = 1, R_W = 1: M^2 = 2 is not a square
    assert!(matches!(cp_layout_from_text("x", "1\n1\n#\n1\n#\n1\n"), Err(CpError::NotPerfectSquare)));
    assert!(matches!(
        cp_layout_from_text("strassen-8-18", STRASSEN_TEXT),
        Err(CpError::FilenameRankMismatch { expected: 8, found: 7 })
    ));
    let ok = cp_layout_from_text("strassen-7-18", STRASSEN_TEXT).unwrap();
    assert_eq!(ok.filename_rank, Some(7));
}

#[test]
fn dimensions_from_row_counts() {
    // <3, 2, 2>: R_U = 6, R_V = 4, R_W = 6
    assert_eq!(derive_dimensions(6, 4, 6), Ok((3, 2, 2)));
    assert_eq!(derive_dimensions(4, 4, 4), Ok((2, 2, 2)));
    assert_eq!(derive_dimensions(9, 6, 6), Ok((3, 3, 2)));
    assert_eq!(derive_dimensions(2, 1, 1), Err(CpError::NotPerfectSquare));
    assert_eq!(derive_dimensions(1, 2, 1), Err(CpError::ZeroM));
    // M = 2 from 6 * 2 / 3 = 4, but 3 is odd
    assert_eq!(derive_dimensions(3, 3, 4), Err(CpError::NDerivation));
    assert_eq!(derive_dimensions(4, 2, 2), Ok((2, 2, 1)));
    assert_eq!(derive_dimensions(4, 3, 3), Err(CpError::PDerivation));
    // M = 2, N = 3, P = 3, but N * P = 9 is not R_V = 8
    assert_eq!(derive_dimensions(6, 8, 6), Err(CpError::NpMismatch));
    assert_eq!(derive_dimensions(usize::MAX, 1, 2), Err(CpError::DimensionOverflow));
}

#[test]
fn rank_from_file_name() {
    assert_eq!(parse_rank_from_filename("grey322-11-50"), Some(11));
    assert_eq!(parse_rank_from_filename("classical333-27-81"), Some(27));
    assert_eq!(parse_rank_from_filename("strassen"), None);
    assert_eq!(parse_rank_from_filename("a-b-c-d"), None);
    assert_eq!(parse_rank_from_filename("a-x7-c"), None);
    assert_eq!(parse_rank_from_filename("a-+7-c"), Some(7));
    assert_eq!(parse_rank_from_filename("a--c"), None);
}

#[test]
fn dimensions_are_recovered_from_every_shape() {
    for m in 1..6usize {
        for n in 1..6usize {
            for p in 1..6usize {
                assert_eq!(derive_dimensions(m * n, n * p, m * p), Ok((m, n, p)));
            }
        }
    }
}
