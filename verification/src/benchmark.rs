//! The bookkeeping of the benchmark runs: how each matrix size is sampled, how the
//! columns of the results file are named after the algorithms and matched with the
//! result folders, and how an existing results file is read back.
use crate::text::{
    chars_of, parse_usize, parse_usize_spec, split_on, split_spec, trim, trim_spec, views,
};
use vstd::prelude::*;
use vstd::string::StrSliceExecFns;
use vstd::string::StringExecFns;

verus! {

/// A struct for running benchmarks on various matrix multiplication algorithms.
#[derive(Debug)]
pub struct Benchmark;

impl Benchmark {
    /// Creates a new `Benchmark` instance.
    pub fn new() -> (b: Self)
        ensures
            b == Benchmark,
    {
        Self
    }
}

impl Default for Benchmark {
    fn default() -> (b: Self)
        ensures
            b == Benchmark,
    {
        Self::new()
    }
}

/// The sampling of one matrix size: the number of samples, the warm-up time and the
/// measurement time in milliseconds.
pub open spec fn sampling_spec(size: usize) -> (usize, u64, u64) {
    if size <= 16 {
        (30, 50, 100)
    } else if size <= 64 {
        (20, 100, 200)
    } else if size <= 256 {
        (10, 200, 500)
    } else {
        (10, 500, 1000)
    }
}

/// How the benchmark group samples matrices of the given size: the number of samples,
/// the warm-up time and the measurement time in milliseconds. Larger matrices get fewer
/// samples and longer times.
pub fn sampling_for_size(size: usize) -> (s: (usize, u64, u64))
    ensures
        s == sampling_spec(size),
        size > 256 ==> s == (10usize, 500u64, 1000u64),
        65 <= size <= 256 ==> s == (10usize, 200u64, 500u64),
        17 <= size <= 64 ==> s == (20usize, 100u64, 200u64),
        size <= 16 ==> s == (30usize, 50u64, 100u64),
{
    if size <= 16 {
        (30, 50, 100)
    } else if size <= 64 {
        (20, 100, 200)
    } else if size <= 256 {
        (10, 200, 500)
    } else {
        (10, 500, 1000)
    }
}

/// The sampling tiers by matrix size: up to 16, 30 samples with 50 ms warm-up and 100 ms
/// measurement; 17 to 64, 20 samples, 100 ms and 200 ms; 65 to 256, 10 samples, 200 ms
/// and 500 ms; above 256, 10 samples, 500 ms and 1000 ms. Larger sizes never get more
/// samples nor shorter times.
pub proof fn lemma_sampling_tiers(size: usize, larger: usize)
    ensures
        size <= 16 ==> sampling_spec(size) == (30usize, 50u64, 100u64),
        17 <= size <= 64 ==> sampling_spec(size) == (20usize, 100u64, 200u64),
        65 <= size <= 256 ==> sampling_spec(size) == (10usize, 200u64, 500u64),
        size > 256 ==> sampling_spec(size) == (10usize, 500u64, 1000u64),
        size <= larger ==> sampling_spec(larger).0 <= sampling_spec(size).0 && sampling_spec(
            larger,
        ).1 >= sampling_spec(size).1 && sampling_spec(larger).2 >= sampling_spec(size).2,
{
}

/// A column of the results file: its header, and the folder of the benchmark results
/// that fill it.
#[derive(Debug)]
pub struct ColumnMapping {
    pub header: String,
    pub folder: String,
}

/// `s` with every `-` and `.` replaced by `_`.
pub open spec fn clean_name(s: Seq<char>) -> Seq<char> {
    s.map_values(|c: char| if c == '-' || c == '.' { '_' } else { c })
}

/// The `(header, folder)` pairs of the results file's columns, in order: the four base
/// multiplications, then for each algorithm its single-thread and multi-thread runs.
pub open spec fn column_mappings_spec(algorithms: Seq<Seq<char>>) -> Seq<(Seq<char>, Seq<char>)> {
    seq![
        ("mkl_seq"@, "MKL-Sequential"@),
        ("mkl_par"@, "MKL-Parallel"@),
        ("faer_seq"@, "Faer-Sequential"@),
        ("faer_par"@, "Faer-Parallel"@),
    ] + algorithms.map_values(
        |a: Seq<char>|
            seq![
                (clean_name(a) + "_single"@, a + "_Single-Thread"@),
                (clean_name(a) + "_multithread"@, a + "_Multi-Thread"@),
            ],
    ).flatten()
}

/// The header and folder of a mapping.
pub open spec fn mapping_view(c: ColumnMapping) -> (Seq<char>, Seq<char>) {
    (c.header@, c.folder@)
}

/// `algo` with every `-` and `.` replaced by `_`.
fn clean_algorithm_name(algo: &str) -> (s: String)
    ensures
        s@ == clean_name(algo@),
{
    let chars = chars_of(algo);
    let mut s = String::new();
    let mut i: usize = 0;
    while i < chars.len()
        invariant
            i <= chars.len(),
            chars@ == algo@,
            s@ == clean_name(algo@.take(i as int)),
        decreases chars.len() - i,
    {
        proof {
            reveal_strlit("_");
        }
        let ghost before = s@;
        if chars[i] == '-' || chars[i] == '.' {
            s.append("_");
        } else {
            let piece = algo.substring_char(i, i + 1);
            assert(piece@ =~= seq![algo@[i as int]]);
            s.append(piece);
        }
        assert(s@ =~= before + seq![
            if algo@[i as int] == '-' || algo@[i as int] == '.' { '_' } else { algo@[i as int] },
        ]);
        assert(clean_name(algo@.take(i + 1)) =~= clean_name(algo@.take(i as int)) + seq![
            if algo@[i as int] == '-' || algo@[i as int] == '.' { '_' } else { algo@[i as int] },
        ]);
        i = i + 1;
    }
    assert(algo@.take(chars.len() as int) =~= algo@);
    s
}

fn mapping(header: &str, folder: &str) -> (c: ColumnMapping)
    ensures
        mapping_view(c) == (header@, folder@),
{
    ColumnMapping { header: String::from_str(header), folder: String::from_str(folder) }
}

/// The columns of the results file for the given algorithms: `mkl_seq`, `mkl_par`,
/// `faer_seq`, `faer_par`, then `<algo>_single` and `<algo>_multithread` for each
/// algorithm (with `-` and `.` replaced by `_`), read from the folders
/// `<algo>_Single-Thread` and `<algo>_Multi-Thread`.
pub fn column_mappings(algorithms: &[&str]) -> (mappings: Vec<ColumnMapping>)
    ensures
        mappings@.map_values(|c: ColumnMapping| mapping_view(c)) == column_mappings_spec(
            algorithms@.map_values(|a: &str| a@),
        ),
{
    let ghost algos = algorithms@.map_values(|a: &str| a@);
    let ghost per_algo = algos.map_values(
        |a: Seq<char>|
            seq![
                (clean_name(a) + "_single"@, a + "_Single-Thread"@),
                (clean_name(a) + "_multithread"@, a + "_Multi-Thread"@),
            ],
    );
    let mut mappings: Vec<ColumnMapping> = Vec::new();
    mappings.push(mapping("mkl_seq", "MKL-Sequential"));
    mappings.push(mapping("mkl_par", "MKL-Parallel"));
    mappings.push(mapping("faer_seq", "Faer-Sequential"));
    mappings.push(mapping("faer_par", "Faer-Parallel"));
    let ghost fixed = seq![
        ("mkl_seq"@, "MKL-Sequential"@),
        ("mkl_par"@, "MKL-Parallel"@),
        ("faer_seq"@, "Faer-Sequential"@),
        ("faer_par"@, "Faer-Parallel"@),
    ];
    assert(mappings@.map_values(|c: ColumnMapping| mapping_view(c)) =~= fixed + per_algo.take(0).flatten());
    let mut t: usize = 0;
    while t < algorithms.len()
        invariant
            t <= algorithms.len(),
            algos == algorithms@.map_values(|a: &str| a@),
            per_algo.len() == algos.len(),
            forall|k: int| 0 <= k < algos.len() ==> #[trigger] per_algo[k] == seq![
                (clean_name(algos[k]) + "_single"@, algos[k] + "_Single-Thread"@),
                (clean_name(algos[k]) + "_multithread"@, algos[k] + "_Multi-Thread"@),
            ],
            mappings@.map_values(|c: ColumnMapping| mapping_view(c)) == fixed + per_algo.take(
                t as int,
            ).flatten(),
        decreases algorithms.len() - t,
    {
        let algo = algorithms[t];
        let clean = clean_algorithm_name(algo);
        let mut header_single = clean.clone();
        header_single.append("_single");
        let mut folder_single = String::from_str(algo);
        folder_single.append("_Single-Thread");
        let mut header_multi = clean;
        header_multi.append("_multithread");
        let mut folder_multi = String::from_str(algo);
        folder_multi.append("_Multi-Thread");
        let ghost before = mappings@;
        mappings.push(ColumnMapping { header: header_single, folder: folder_single });
        mappings.push(ColumnMapping { header: header_multi, folder: folder_multi });
        proof {
            assert(algos[t as int] == algo@);
            assert(per_algo.take(t + 1) =~= per_algo.take(t as int).push(per_algo[t as int]));
            per_algo.take(t as int).lemma_flatten_push(per_algo[t as int]);
            assert(mappings@.map_values(|c: ColumnMapping| mapping_view(c)) =~= before.map_values(
                |c: ColumnMapping| mapping_view(c),
            ) + per_algo[t as int]);
        }
        t = t + 1;
    }
    assert(per_algo.take(algorithms.len() as int) =~= per_algo);
    mappings
}

/// The header line of the results file: `size` followed by each column's header, comma
/// separated.
pub open spec fn header_line_spec(headers: Seq<Seq<char>>) -> Seq<char> {
    "size"@ + headers.map_values(|h: Seq<char>| seq![','] + h).flatten()
}

/// The header line of the results file for the given columns.
pub fn csv_header_line(mappings: &Vec<ColumnMapping>) -> (line: String)
    ensures
        line@ == header_line_spec(mappings@.map_values(|c: ColumnMapping| c.header@)),
{
    let ghost headers = mappings@.map_values(|c: ColumnMapping| c.header@);
    let ghost pieces = headers.map_values(|h: Seq<char>| seq![','] + h);
    let mut line = String::from_str("size");
    assert(pieces.take(0).flatten() =~= Seq::<char>::empty());
    let mut t: usize = 0;
    while t < mappings.len()
        invariant
            t <= mappings.len(),
            headers == mappings@.map_values(|c: ColumnMapping| c.header@),
            pieces == headers.map_values(|h: Seq<char>| seq![','] + h),
            line@ == "size"@ + pieces.take(t as int).flatten(),
        decreases mappings.len() - t,
    {
        proof {
            reveal_strlit(",");
        }
        line.append(",");
        line.append(mappings[t].header.as_str());
        proof {
            assert(pieces.take(t + 1) =~= pieces.take(t as int).push(pieces[t as int]));
            pieces.take(t as int).lemma_flatten_push(pieces[t as int]);
        }
        t = t + 1;
    }
    assert(pieces.take(mappings.len() as int) =~= pieces);
    line
}

/// One cell of an existing results file: the matrix size of its row, the header of its
/// column and its text (trimmed), still to be read as a time.
#[derive(Debug)]
pub struct CsvCell {
    pub size: usize,
    pub header: Vec<char>,
    pub value: Vec<char>,
}

/// The size, header and value of a cell.
pub open spec fn cell_view(c: CsvCell) -> (usize, Seq<char>, Seq<char>) {
    (c.size, c.header@, c.value@)
}

/// The cells of one data line: none when its first field, trimmed, is empty or is not a
/// size; otherwise one cell for each further field that has a header.
pub open spec fn line_cells(headers: Seq<Seq<char>>, line: Seq<char>) -> Seq<(usize, Seq<char>, Seq<char>)> {
    let parts = split_spec(line, ',');
    let key = trim_spec(parts[0]);
    if key.len() == 0 {
        seq![]
    } else {
        match parse_usize_spec(key) {
            None => seq![],
            Some(size) => {
                let count = if parts.len() < headers.len() { parts.len() } else { headers.len() };
                Seq::new(
                    (if count >= 1 { count - 1 } else { 0 }) as nat,
                    |t: int| (size, headers[t + 1], trim_spec(parts[t + 1])),
                )
            },
        }
    }
}

/// The headers of a results file: the comma-separated fields of its first line, trimmed.
pub open spec fn csv_headers(content: Seq<char>) -> Seq<Seq<char>> {
    split_spec(split_spec(content, '\n')[0], ',').map_values(|h: Seq<char>| trim_spec(h))
}

/// The cells of a results file, line after line: the first line holds the headers, and
/// each further line the cells of one matrix size.
pub open spec fn csv_cells_spec(content: Seq<char>) -> Seq<(usize, Seq<char>, Seq<char>)> {
    let lines = split_spec(content, '\n');
    lines.skip(1).map_values(|l: Seq<char>| line_cells(csv_headers(content), l)).flatten()
}

fn copy_chars(v: &Vec<char>) -> (c: Vec<char>)
    ensures
        c@ == v@,
{
    let mut c: Vec<char> = Vec::new();
    let mut i: usize = 0;
    while i < v.len()
        invariant
            i <= v.len(),
            c@ == v@.take(i as int),
        decreases v.len() - i,
    {
        c.push(v[i]);
        i = i + 1;
        assert(c@ =~= v@.take(i as int));
    }
    assert(v@.take(v.len() as int) =~= v@);
    c
}

fn cells_of_line(headers: &Vec<Vec<char>>, line: &Vec<char>) -> (cells: Vec<CsvCell>)
    ensures
        cells@.map_values(|c: CsvCell| cell_view(c)) == line_cells(views(headers@), line@),
{
    let ghost hs = views(headers@);
    let parts = split_on(line, ',');
    let ghost ps = views(parts@);
    assert(ps.len() >= 1);
    let key = trim(&parts[0]);
    assert(ps[0] == parts@[0]@);
    assert(hs.len() == headers.len() && ps.len() == parts.len());
    let mut cells: Vec<CsvCell> = Vec::new();
    if key.len() == 0 {
        assert(cells@.map_values(|c: CsvCell| cell_view(c)) =~= line_cells(hs, line@));
        return cells;
    }
    let size = match parse_usize(&key) {
        Some(size) => size,
        None => {
            assert(cells@.map_values(|c: CsvCell| cell_view(c)) =~= line_cells(hs, line@));
            return cells;
        },
    };
    let count = if parts.len() < headers.len() { parts.len() } else { headers.len() };
    let mut t: usize = 1;
    while t < count
        invariant
            1 <= t,
            t <= count || (count == 0 && t == 1),
            count <= parts.len(),
            count <= headers.len(),
            hs == views(headers@),
            ps == views(parts@),
            cells@.map_values(|c: CsvCell| cell_view(c)) == Seq::new(
                (t - 1) as nat,
                |s: int| (size, hs[s + 1], trim_spec(ps[s + 1])),
            ),
        decreases count - t,
    {
        let header = copy_chars(&headers[t]);
        let value = trim(&parts[t]);
        let ghost before = cells@;
        cells.push(CsvCell { size, header, value });
        proof {
            assert(hs[t as int] == headers@[t as int]@);
            assert(ps[t as int] == parts@[t as int]@);
            assert(header@ == hs[t as int]);
            assert(value@ == trim_spec(ps[t as int]));
            assert(cells@.map_values(|c: CsvCell| cell_view(c)) =~= before.map_values(
                |c: CsvCell| cell_view(c),
            ).push((size, header@, value@)));
            assert(cells@.map_values(|c: CsvCell| cell_view(c)) =~= Seq::new(
                t as nat,
                |s: int| (size, hs[s + 1], trim_spec(ps[s + 1])),
            ));
        }
        t = t + 1;
    }
    proof {
        let parts_spec = split_spec(line@, ',');
        assert(parts_spec == ps);
        assert(trim_spec(parts_spec[0]) == key@);
        assert(parse_usize_spec(key@) == Some(size));
        let cnt = if parts_spec.len() < hs.len() { parts_spec.len() } else { hs.len() };
        assert(cnt == count);
        assert(count >= 1 ==> t == count);
        assert(count == 0 ==> t == 1);
        let expected = Seq::new(
            (if cnt >= 1 { cnt - 1 } else { 0 }) as nat,
            |u: int| (size, hs[u + 1], trim_spec(parts_spec[u + 1])),
        );
        assert(line_cells(hs, line@) == expected);
        assert(cells@.map_values(|c: CsvCell| cell_view(c)) =~= expected);
    }
    cells
}

/// Reads the cells of an existing results file, as `read_existing_csv` finds them before
/// reading their values as times: the first line gives the column headers, and every
/// further line whose first field is a size gives one cell per further field that has a
/// header.
pub fn parse_csv_cells(content: &str) -> (cells: Vec<CsvCell>)
    ensures
        cells@.map_values(|c: CsvCell| cell_view(c)) == csv_cells_spec(content@),
{
    let chars = chars_of(content);
    let lines = split_on(&chars, '\n');
    let ghost ls = views(lines@);
    assert(ls.len() >= 1);
    let header_fields = split_on(&lines[0], ',');
    let mut headers: Vec<Vec<char>> = Vec::new();
    let mut h: usize = 0;
    while h < header_fields.len()
        invariant
            h <= header_fields.len(),
            views(headers@) == views(header_fields@).take(h as int).map_values(
                |x: Seq<char>| trim_spec(x),
            ),
        decreases header_fields.len() - h,
    {
        let field = trim(&header_fields[h]);
        let ghost before = headers@;
        headers.push(field);
        proof {
            assert(views(header_fields@)[h as int] == header_fields@[h as int]@);
            assert(views(headers@) =~= views(before).push(field@));
            assert(views(header_fields@).take(h + 1) =~= views(header_fields@).take(h as int).push(
                views(header_fields@)[h as int],
            ));
            assert(views(headers@) =~= views(header_fields@).take(h + 1).map_values(
                |x: Seq<char>| trim_spec(x),
            ));
        }
        h = h + 1;
    }
    assert(views(header_fields@).take(header_fields.len() as int) =~= views(header_fields@));
    assert(views(headers@) == csv_headers(content@));
    let ghost per_line = ls.skip(1).map_values(|l: Seq<char>| line_cells(csv_headers(content@), l));
    let mut cells: Vec<CsvCell> = Vec::new();
    assert(per_line.take(0).flatten() =~= Seq::<(usize, Seq<char>, Seq<char>)>::empty());
    assert(cells@.map_values(|c: CsvCell| cell_view(c)) =~= per_line.take(0).flatten());
    let mut i: usize = 1;
    while i < lines.len()
        invariant
            1 <= i <= lines.len(),
            ls == views(lines@),
            views(headers@) == csv_headers(content@),
            per_line == ls.skip(1).map_values(|l: Seq<char>| line_cells(csv_headers(content@), l)),
            cells@.map_values(|c: CsvCell| cell_view(c)) == per_line.take(i - 1).flatten(),
        decreases lines.len() - i,
    {
        let line_cells_vec = cells_of_line(&headers, &lines[i]);
        let ghost before = cells@;
        let ghost added = line_cells_vec@;
        let mut rest = line_cells_vec;
        let mut moved: Vec<CsvCell> = Vec::new();
        // keep the order of the line's cells
        let mut k: usize = 0;
        let n = rest.len();
        while k < n
            invariant
                k <= n,
                n == added.len(),
                rest@ == added.subrange(k as int, n as int),
                cells@ == before + added.take(k as int),
            decreases n - k,
        {
            let cell = rest.remove(0);
            cells.push(cell);
            assert(added.take(k + 1) =~= added.take(k as int).push(added[k as int]));
            assert(rest@ =~= added.subrange(k + 1, n as int));
            k = k + 1;
        }
        proof {
            assert(added.take(n as int) =~= added);
            assert(per_line.take(i as int) =~= per_line.take(i - 1).push(per_line[i - 1]));
            per_line.take(i - 1).lemma_flatten_push(per_line[i - 1]);
            assert(per_line[i - 1] == line_cells(csv_headers(content@), ls[i as int]));
            assert(cells@.map_values(|c: CsvCell| cell_view(c)) =~= before.map_values(
                |c: CsvCell| cell_view(c),
            ) + added.map_values(|c: CsvCell| cell_view(c)));
        }
        i = i + 1;
    }
    assert(per_line.take(lines.len() - 1) =~= per_line);
    cells
}

} // verus!
