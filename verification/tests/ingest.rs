use dms_viewer::ingest::{
    column_named, find_column, header_columns, is_value_ok, parse_record, read_tsv, read_tsv_at,
    rows_from_records, Column, ParseError, ParseErrorKind,
};

const HEADER: &str =
    "chunk\tpos\tcondition\taa\tlog2FoldChange\tlog2StdError\tstatistic\tp.value\tversion\n";

fn strings(fields: &[&str]) -> Vec<String> {
    fields.iter().map(|f| f.to_string()).collect()
}

#[test]
fn one_good_and_one_bad_record_give_one_row_and_one_report() {
    let text = format!(
        "{HEADER}3\t12\tdrugA\tA\t-1.5\t0.25\t-6.0\t1e-3\tv1\n3\ttwelve\tdrugA\tC\t0.5\t0.1\t5\t0.5\tv1\n"
    );
    let (rows, errors) = read_tsv_at(text.as_bytes(), "GLP1R", 1_700_000_000_000_000);
    assert_eq!(rows.len(), 1);
    assert_eq!(errors, vec![ParseError { record: 1, kind: ParseErrorKind::Invalid(Column::Pos) }]);
    let row = &rows[0];
    assert_eq!(row.id, None);
    assert_eq!(row.chunk, 3);
    assert_eq!(row.pos, 12);
    assert_eq!(row.condition, "drugA");
    assert_eq!(row.aa, "A");
    assert_eq!(row.log2_fold_change, -1_500_000_000);
    assert_eq!(row.log2_std_error, 250_000_000);
    assert_eq!(row.statistic, -6_000_000_000);
    assert_eq!(row.p_value, 1_000_000);
    assert_eq!(row.version, "v1");
    assert_eq!(row.protein, "GLP1R");
    assert_eq!(row.created_on, 1_700_000_000_000_000);
}

#[test]
fn what_the_file_says_of_protein_and_time_is_overridden() {
    let text = "id\tprotein\tcreated_on\tchunk\tpos\tcondition\taa\tlog2_fold_change\tlog2_std_error\tstatistic\tp_value\tversion\n\
                77\tRHO\t2020-01-02T03:04:05\t1\t2\tc\tY\t1\t1\t1\t1\tv\n";
    let (rows, errors) = read_tsv_at(text.as_bytes(), "GIPR", 5);
    assert!(errors.is_empty());
    assert_eq!(rows.len(), 1);
    assert_eq!(rows[0].id, Some(77));
    assert_eq!(rows[0].protein, "GIPR");
    assert_eq!(rows[0].created_on, 5);
    assert_eq!(rows[0].p_value, 1_000_000_000);
}

#[test]
fn rows_bear_the_time_of_the_call() {
    let text = format!("{HEADER}1\t1\tc\tA\t1\t1\t1\t1\tv\n1\t2\tc\tA\t1\t1\t1\t1\tv\n");
    let (rows, errors) = read_tsv(text.as_bytes(), "GLP1R");
    assert!(errors.is_empty());
    assert_eq!(rows.len(), 2);
    assert_eq!(rows[0].created_on, rows[1].created_on);
    // Later than the first of January 2024, in microseconds.
    assert!(rows[0].created_on > 1_704_067_200_000_000);
    assert_eq!(rows[0].protein, "GLP1R");
}

#[test]
fn rows_keep_the_order_of_the_records() {
    let mut text = HEADER.to_string();
    for pos in [5, 3, 9, 1] {
        text.push_str(&format!("1\t{pos}\tc\tA\t1\t1\t1\t1\tv\n"));
        text.push_str("1\tx\tc\tA\t1\t1\t1\t1\tv\n");
    }
    let (rows, errors) = read_tsv_at(text.as_bytes(), "GLP1R", 0);
    assert_eq!(rows.iter().map(|r| r.pos).collect::<Vec<i32>>(), vec![5, 3, 9, 1]);
    assert_eq!(errors.iter().map(|e| e.record).collect::<Vec<usize>>(), vec![1, 3, 5, 7]);
}

#[test]
fn a_record_of_another_length_is_unreadable() {
    let text = format!("{HEADER}1\t1\tc\tA\t1\t1\t1\t1\n1\t2\tc\tA\t1\t1\t1\t1\tv\n1\t3\tc\tA\t1\t1\t1\t1\tv\textra\n");
    let (rows, errors) = read_tsv_at(text.as_bytes(), "GLP1R", 0);
    assert_eq!(rows.len(), 1);
    assert_eq!(rows[0].pos, 2);
    assert_eq!(
        errors,
        vec![
            ParseError { record: 0, kind: ParseErrorKind::Unreadable },
            ParseError { record: 2, kind: ParseErrorKind::Unreadable },
        ]
    );
}

#[test]
fn a_header_without_a_needed_column_gives_no_rows() {
    let text = "chunk\tpos\tcondition\taa\tlog2FoldChange\tstatistic\tp.value\tversion\n\
                1\t1\tc\tA\t1\t1\t1\tv\n1\t2\tc\tA\t1\t1\t1\tv\n";
    let (rows, errors) = read_tsv_at(text.as_bytes(), "GLP1R", 0);
    assert!(rows.is_empty());
    assert_eq!(
        errors,
        vec![
            ParseError { record: 0, kind: ParseErrorKind::Missing(Column::Log2StdError) },
            ParseError { record: 1, kind: ParseErrorKind::Missing(Column::Log2StdError) },
        ]
    );
}

#[test]
fn a_column_named_twice_gives_no_rows() {
    let text = "chunk\tpos\tcondition\taa\tlog2FoldChange\tlog2_fold_change\tlog2StdError\tstatistic\tp.value\tversion\n\
                1\t1\tc\tA\t1\t1\t1\t1\t1\tv\n";
    let (rows, errors) = read_tsv_at(text.as_bytes(), "GLP1R", 0);
    assert!(rows.is_empty());
    assert_eq!(
        errors,
        vec![ParseError { record: 0, kind: ParseErrorKind::Duplicate(Column::Log2FoldChange) }]
    );
}

#[test]
fn the_first_fault_of_a_record_is_reported() {
    let text = format!("{HEADER}x\ty\tc\tA\tz\t1\t1\t1\tv\n1\t1\tc\tA\t1\t1\t1\tmuch\tv\n");
    let (_, errors) = read_tsv_at(text.as_bytes(), "GLP1R", 0);
    assert_eq!(
        errors,
        vec![
            ParseError { record: 0, kind: ParseErrorKind::Invalid(Column::Chunk) },
            ParseError { record: 1, kind: ParseErrorKind::Invalid(Column::PValue) },
        ]
    );
}

#[test]
fn columns_without_meaning_are_passed_over() {
    let text = "note\tchunk\tpos\tcondition\taa\tlog2FoldChange\tlog2StdError\tstatistic\tp.value\tversion\tmore\n\
                anything\t1\t4\tc\tA\t1\t1\t1\t1\tv\t\n";
    let (rows, errors) = read_tsv_at(text.as_bytes(), "GLP1R", 0);
    assert!(errors.is_empty());
    assert_eq!(rows.len(), 1);
    assert_eq!(rows[0].pos, 4);
}

#[test]
fn an_id_may_be_empty_but_not_wrong() {
    let text = format!("id\t{HEADER}\t1\t1\tc\tA\t1\t1\t1\t1\tv\n8\t1\t2\tc\tA\t1\t1\t1\t1\tv\nx\t1\t3\tc\tA\t1\t1\t1\t1\tv\n");
    let (rows, errors) = read_tsv_at(text.as_bytes(), "GLP1R", 0);
    assert_eq!(rows.iter().map(|r| r.id).collect::<Vec<Option<i32>>>(), vec![None, Some(8)]);
    assert_eq!(errors, vec![ParseError { record: 2, kind: ParseErrorKind::Invalid(Column::Id) }]);
}

#[test]
fn a_time_of_creation_must_be_one() {
    let text = format!("created_at\t{HEADER}2024-05-06T07:08:09.5\t1\t1\tc\tA\t1\t1\t1\t1\tv\nyesterday\t1\t2\tc\tA\t1\t1\t1\t1\tv\n");
    let (rows, errors) = read_tsv_at(text.as_bytes(), "GLP1R", 9);
    assert_eq!(rows.len(), 1);
    assert_eq!(rows[0].created_on, 9);
    assert_eq!(
        errors,
        vec![ParseError { record: 1, kind: ParseErrorKind::Invalid(Column::CreatedOn) }]
    );
    assert!(is_value_ok(Column::CreatedOn, "2015-09-18T23:56:04"));
    assert!(!is_value_ok(Column::CreatedOn, "2015-09-18"));
    assert!(!is_value_ok(Column::CreatedOn, ""));
}

#[test]
fn an_empty_text_gives_nothing() {
    let (rows, errors) = read_tsv_at(b"", "GLP1R", 0);
    assert!(rows.is_empty());
    assert!(errors.is_empty());
    let (rows, errors) = read_tsv_at(HEADER.as_bytes(), "GLP1R", 0);
    assert!(rows.is_empty());
    assert!(errors.is_empty());
}

#[test]
fn quoted_fields_are_read_as_the_reader_reads_them() {
    let text = format!("{HEADER}1\t1\t\"dose\t2\"\tA\t1\t1\t1\t1\tv\n");
    let (rows, errors) = read_tsv_at(text.as_bytes(), "GLP1R", 0);
    assert!(errors.is_empty());
    assert_eq!(rows[0].condition, "dose\t2");
}

#[test]
fn text_that_is_not_utf8_is_unreadable() {
    let mut bytes = HEADER.as_bytes().to_vec();
    bytes.extend_from_slice(b"1\t1\tc\xff\tA\t1\t1\t1\t1\tv\n1\t2\tc\tA\t1\t1\t1\t1\tv\n");
    let (rows, errors) = read_tsv_at(&bytes, "GLP1R", 0);
    assert_eq!(rows.len(), 1);
    assert_eq!(errors, vec![ParseError { record: 0, kind: ParseErrorKind::Unreadable }]);
}

#[test]
fn records_without_header_are_unreadable() {
    let records = vec![Some(strings(&["1", "2"])), None];
    let (rows, errors) = rows_from_records(&None, &records, "GLP1R", 0);
    assert!(rows.is_empty());
    assert_eq!(
        errors,
        vec![
            ParseError { record: 0, kind: ParseErrorKind::Unreadable },
            ParseError { record: 1, kind: ParseErrorKind::Unreadable },
        ]
    );
}

#[test]
fn records_under_a_header_become_rows() {
    let header = Some(strings(&[
        "pos", "chunk", "aa", "condition", "version", "p_value", "statistic", "log2_std_error",
        "log2_fold_change",
    ]));
    let records = vec![
        Some(strings(&["15", "2", "W", "c", "v9", "0.04", "2.5", "0.5", "-1.25"])),
        None,
        Some(strings(&["15", "2", "W", "c", "v9", "0.04", "2.5", "0.5"])),
    ];
    let (rows, errors) = rows_from_records(&header, &records, "RHO", -3);
    assert_eq!(rows.len(), 1);
    assert_eq!(rows[0].pos, 15);
    assert_eq!(rows[0].chunk, 2);
    assert_eq!(rows[0].aa, "W");
    assert_eq!(rows[0].condition, "c");
    assert_eq!(rows[0].version, "v9");
    assert_eq!(rows[0].p_value, 40_000_000);
    assert_eq!(rows[0].statistic, 2_500_000_000);
    assert_eq!(rows[0].log2_std_error, 500_000_000);
    assert_eq!(rows[0].log2_fold_change, -1_250_000_000);
    assert_eq!(rows[0].protein, "RHO");
    assert_eq!(rows[0].created_on, -3);
    assert_eq!(
        errors,
        vec![
            ParseError { record: 1, kind: ParseErrorKind::Unreadable },
            ParseError { record: 2, kind: ParseErrorKind::Unreadable },
        ]
    );
}

#[test]
fn columns_go_by_their_names_and_second_names() {
    for (name, column) in [
        ("id", Column::Id),
        ("chunk", Column::Chunk),
        ("pos", Column::Pos),
        ("condition", Column::Condition),
        ("aa", Column::Aa),
        ("log2_fold_change", Column::Log2FoldChange),
        ("log2FoldChange", Column::Log2FoldChange),
        ("log2_std_error", Column::Log2StdError),
        ("log2StdError", Column::Log2StdError),
        ("statistic", Column::Statistic),
        ("p_value", Column::PValue),
        ("p.value", Column::PValue),
        ("version", Column::Version),
        ("protein", Column::Protein),
        ("created_on", Column::CreatedOn),
        ("created_at", Column::CreatedOn),
    ] {
        assert_eq!(column_named(&name.to_string()), Some(column));
    }
    for name in ["", "ID", "position", "pvalue", "p-value", "log2foldchange", " pos"] {
        assert_eq!(column_named(&name.to_string()), None);
    }
}

#[test]
fn the_first_field_of_a_name_is_its_column() {
    let columns = header_columns(&strings(&["pos", "x", "p.value", "pos", "p_value"]));
    assert_eq!(
        columns,
        vec![Some(Column::Pos), None, Some(Column::PValue), Some(Column::Pos), Some(Column::PValue)]
    );
    assert_eq!(find_column(&columns, Column::Pos), Some(0));
    assert_eq!(find_column(&columns, Column::PValue), Some(2));
    assert_eq!(find_column(&columns, Column::Aa), None);
}

#[test]
fn a_single_record_is_read_or_faulted() {
    let columns = header_columns(&strings(&[
        "chunk", "pos", "condition", "aa", "log2FoldChange", "log2StdError", "statistic",
        "p.value", "version",
    ]));
    let good = strings(&["1", "2", "c", "A", "1", "2", "3", "0.5", "v"]);
    let row = parse_record(&columns, &good, "P", 1).unwrap();
    assert_eq!((row.chunk, row.pos, row.p_value), (1, 2, 500_000_000));
    let short = strings(&["1", "2"]);
    assert_eq!(parse_record(&columns, &short, "P", 1).unwrap_err(), ParseErrorKind::Unreadable);
    let bad = strings(&["1", "2", "c", "A", "1", "2", "three", "0.5", "v"]);
    assert_eq!(
        parse_record(&columns, &bad, "P", 1).unwrap_err(),
        ParseErrorKind::Invalid(Column::Statistic)
    );
}

#[test]
fn a_p_value_however_small_stays_above_zero() {
    let text = format!("{HEADER}1\t1\tc\tA\t1\t1\t1\t4.2e-117\tv\n1\t2\tc\tA\t1\t1\t1\t0\tv\n");
    let (rows, errors) = read_tsv_at(text.as_bytes(), "GLP1R", 0);
    assert!(errors.is_empty());
    assert_eq!(rows.iter().map(|r| r.p_value).collect::<Vec<i64>>(), vec![1, 0]);
    let mut store = dms_viewer::VariantStore::new();
    store.add_protein("GLP1R").unwrap();
    assert_eq!(store.bulk_insert(&rows[..1].to_vec(), "GLP1R"), Ok(1));
    assert_eq!(store.bulk_insert(&rows, "GLP1R"), Err(dms_viewer::StoreError::Storage));
}

#[test]
fn whole_numbers_after_0x_are_hexadecimal() {
    let text = format!("id\t{HEADER}0x10\t0x2\t0x1F\tc\tA\t1\t1\t1\t1\tv\n7\t1\t0X1F\tc\tA\t1\t1\t1\t1\tv\n");
    let (rows, errors) = read_tsv_at(text.as_bytes(), "GLP1R", 0);
    assert_eq!(rows.len(), 1);
    assert_eq!((rows[0].id, rows[0].chunk, rows[0].pos), (Some(16), 2, 31));
    assert_eq!(errors, vec![ParseError { record: 1, kind: ParseErrorKind::Invalid(Column::Pos) }]);
}
