use fast_matmul::benchmark::{column_mappings, csv_header_line, parse_csv_cells, sampling_for_size, Benchmark};

#[test]
fn sampling_by_size() {
    let _ = Benchmark::new();
    assert_eq!(sampling_for_size(2), (30, 50, 100));
    assert_eq!(sampling_for_size(16), (30, 50, 100));
    assert_eq!(sampling_for_size(17), (20, 100, 200));
    assert_eq!(sampling_for_size(64), (20, 100, 200));
    assert_eq!(sampling_for_size(256), (10, 200, 500));
    assert_eq!(sampling_for_size(1024), (10, 500, 1000));
}

#[test]
fn columns_for_algorithms() {
    let mappings = column_mappings(&["strassen", "grey-strassen.v2"]);
    let pairs: Vec<(String, String)> = mappings.iter().map(|c| (c.header.clone(), c.folder.clone())).collect();
    let expected = vec![
        ("mkl_seq", "MKL-Sequential"),
        ("mkl_par", "MKL-Parallel"),
        ("faer_seq", "Faer-Sequential"),
        ("faer_par", "Faer-Parallel"),
        ("strassen_single", "strassen_Single-Thread"),
        ("strassen_multithread", "strassen_Multi-Thread"),
        ("grey_strassen_v2_single", "grey-strassen.v2_Single-Thread"),
        ("grey_strassen_v2_multithread", "grey-strassen.v2_Multi-Thread"),
    ];
    let expected: Vec<(String, String)> = expected.into_iter().map(|(h, f)| (h.to_string(), f.to_string())).collect();
    assert_eq!(pairs, expected);
    assert_eq!(
        csv_header_line(&mappings),
        "size,mkl_seq,mkl_par,faer_seq,faer_par,strassen_single,strassen_multithread,grey_strassen_v2_single,grey_strassen_v2_multithread"
    );
}

#[test]
fn cells_of_an_existing_results_file() {
    let content = "size, mkl_seq ,faer_par\r\n2,0.5,0.25\r\n\n x ,1,2\n4,,0.75,9\n 8 \n";
    let cells = parse_csv_cells(content);
    let view: Vec<(usize, String, String)> = cells
        .iter()
        .map(|c| (c.size, c.header.iter().collect(), c.value.iter().collect()))
        .collect();
    let expected: Vec<(usize, String, String)> = vec![
        (2, "mkl_seq".to_string(), "0.5".to_string()),
        (2, "faer_par".to_string(), "0.25".to_string()),
        (4, "mkl_seq".to_string(), "".to_string()),
        (4, "faer_par".to_string(), "0.75".to_string()),
    ];
    assert_eq!(view, expected);
    assert!(parse_csv_cells("").is_empty());
}
