use dms_viewer::config::{ConfigError, DEFAULT_PORT};
use dms_viewer::controls::{
    pdb_id_for, requested_plot, resolve_request, threshold_slider, RawParams, ThresholdSlider,
    ValidationError,
};
use dms_viewer::model::{amino_acid_rank, is_row_valid, same_str, same_text};
use dms_viewer::title::{get_title, title_at, title_choices, TITLES};
use dms_viewer::store::{check_batch, is_batch_valid};
use dms_viewer::upload::{conclude, read_upload, upload_file, UploadOutcome};
use dms_viewer::{
    default_protein, EnvironmentVariables, MetricRange, Paint, PlotType, PositionFilter,
    StoreError, TableParams, TitleQuery, Variant, VariantStore, AMINO_ACIDS, PAGE_SIZE,
};

fn params(plot: Option<PlotType>) -> TableParams {
    TableParams {
        protein: "GLP1R".to_string(),
        condition: "drug".to_string(),
        position_filter: PositionFilter::NoOrder,
        paint: Paint::PValue,
        operation: None,
        threshold: None,
        page: None,
        plot,
    }
}

#[test]
fn the_default_protein_is_unknown() {
    assert_eq!(default_protein(), "unknown");
}

#[test]
fn the_alphabet_has_21_symbols_and_a_page_100_positions() {
    assert_eq!(AMINO_ACIDS.len(), 21);
    assert_eq!(AMINO_ACIDS[0], "*");
    assert_eq!(AMINO_ACIDS[20], "Y");
    assert_eq!(PAGE_SIZE, 100);
}

#[test]
fn symbols_have_their_rank_in_the_alphabet() {
    for (k, symbol) in AMINO_ACIDS.iter().enumerate() {
        assert_eq!(amino_acid_rank(&symbol.to_string()), k);
    }
    for other in ["", "B", "a", "AA", "X", " A"] {
        assert_eq!(amino_acid_rank(&other.to_string()), 21);
    }
}

#[test]
fn texts_are_compared_by_their_characters() {
    assert!(same_str("abc", "abc"));
    assert!(!same_str("abc", "abd"));
    assert!(!same_str("abc", "ab"));
    assert!(same_text(&"x".to_string(), "x"));
    assert!(!same_text(&"x".to_string(), "X"));
}

#[test]
fn metrics_have_names_and_are_found_by_them() {
    assert_eq!(Paint::PValue.to_string(), "p_value");
    assert_eq!(Paint::Log2FoldChange.to_string(), "log2_fold_change");
    assert_eq!(Paint::ZStatistic.to_string(), "statistic");
    for paint in [Paint::PValue, Paint::Log2FoldChange, Paint::ZStatistic] {
        assert_eq!(Paint::parse(&paint.to_string()), Some(paint));
    }
    assert_eq!(Paint::parse("PValue"), Some(Paint::PValue));
    assert_eq!(Paint::parse("Log2FoldChange"), Some(Paint::Log2FoldChange));
    assert_eq!(Paint::parse("ZStatistic"), Some(Paint::ZStatistic));
    assert_eq!(Paint::parse("pvalue"), None);
    assert_eq!(Paint::parse(""), None);
}

#[test]
fn policies_have_names_and_are_found_by_them() {
    for policy in [
        PositionFilter::MostSignificantPValue,
        PositionFilter::LargestLog2FoldChange,
        PositionFilter::LargestZStatistic,
        PositionFilter::NoOrder,
    ] {
        assert_eq!(PositionFilter::parse(&policy.to_string()), Some(policy));
    }
    assert_eq!(PositionFilter::NoOrder.to_string(), "NoOrder");
    assert_eq!(PositionFilter::MostSignificantPValue.to_string(), "MostSignificantPValue");
    assert_eq!(PositionFilter::parse("No Order"), None);
}

#[test]
fn a_metric_reads_its_own_field() {
    let row = Variant {
        id: None,
        chunk: 0,
        pos: 1,
        condition: String::new(),
        aa: "A".to_string(),
        log2_fold_change: 1,
        log2_std_error: 2,
        statistic: 3,
        p_value: 4,
        version: String::new(),
        protein: String::new(),
        created_on: 0,
    };
    assert_eq!(Paint::Log2FoldChange.value_of(&row), 1);
    assert_eq!(Paint::ZStatistic.value_of(&row), 3);
    assert_eq!(Paint::PValue.value_of(&row), 4);
    assert!(is_row_valid(&row));
    assert!(!is_row_valid(&Variant { pos: 0, ..row.clone() }));
    assert_eq!(row.clone().p_value, 4);
}

#[test]
fn a_configuration_needs_a_database() {
    assert_eq!(
        EnvironmentVariables::from_env(None, Some("8000".to_string())).unwrap_err(),
        ConfigError::MissingDatabaseUrl
    );
    assert_eq!(
        EnvironmentVariables::from_env(None, None).unwrap_err(),
        ConfigError::MissingDatabaseUrl
    );
}

#[test]
fn the_port_is_read_or_falls_back() {
    let url = "postgres://postgres@localhost/db".to_string();
    let made = EnvironmentVariables::from_env(Some(url.clone()), None).unwrap();
    assert_eq!(made.database_url, url);
    assert_eq!(made.port, 3000);
    assert_eq!(DEFAULT_PORT, 3000);
    let made = EnvironmentVariables::from_env(Some(url.clone()), Some("8000".to_string())).unwrap();
    assert_eq!(made.port, 8000);
    assert_eq!(made.clone().port, 8000);
    for bad in ["", "http", "65536", "-1", "80.0"] {
        assert_eq!(
            EnvironmentVariables::from_env(Some(url.clone()), Some(bad.to_string())).unwrap_err(),
            ConfigError::InvalidPort
        );
    }
}

#[test]
fn a_request_names_its_plot() {
    assert_eq!(requested_plot(&params(Some(PlotType::Scatter))), Ok(PlotType::Scatter));
    assert_eq!(requested_plot(&params(Some(PlotType::Heatmap))), Ok(PlotType::Heatmap));
    assert_eq!(requested_plot(&params(None)), Err(ValidationError::MissingPlot));
}

#[test]
fn the_slider_divides_the_range_in_fifty() {
    let range = MetricRange { min: -250, max: 750, max_abs: 750 };
    assert_eq!(
        threshold_slider(PositionFilter::NoOrder, &range),
        Some(ThresholdSlider { min: -250, max: 750, step: 20 })
    );
    let narrow = MetricRange { min: 0, max: 49, max_abs: 49 };
    assert_eq!(threshold_slider(PositionFilter::NoOrder, &narrow).unwrap().step, 0);
    let wide = MetricRange { min: i64::MIN, max: i64::MAX, max_abs: 1 << 63 };
    assert_eq!(threshold_slider(PositionFilter::NoOrder, &wide).unwrap().step, 368934881474191032);
    let turned = MetricRange { min: 100, max: 0, max_abs: 100 };
    assert_eq!(threshold_slider(PositionFilter::NoOrder, &turned).unwrap().step, -2);
    for policy in [
        PositionFilter::MostSignificantPValue,
        PositionFilter::LargestLog2FoldChange,
        PositionFilter::LargestZStatistic,
    ] {
        assert_eq!(threshold_slider(policy, &range), None);
    }
}

#[test]
fn proteins_have_their_structure() {
    assert_eq!(pdb_id_for("GLP1R"), "7ki0");
    assert_eq!(pdb_id_for("GIPR"), "8wa3");
    assert_eq!(pdb_id_for("RHO"), "1f88");
    assert_eq!(pdb_id_for("anything else"), "7s15");
    assert_eq!(pdb_id_for("glp1r"), "7s15");
    assert_eq!(pdb_id_for(""), "7s15");
}

#[test]
fn a_title_never_follows_itself() {
    for shown in TITLES {
        let query = TitleQuery { previous: Some(shown.to_string()) };
        let choices = title_choices(&query);
        assert_eq!(choices.len(), 4);
        assert!(!choices.contains(&shown));
        for _ in 0..50 {
            let next = get_title(&query);
            assert_ne!(next, shown);
            assert!(TITLES.contains(&next));
        }
    }
}

#[test]
fn any_title_may_come_first() {
    let query = TitleQuery { previous: None };
    assert_eq!(title_choices(&query), TITLES.to_vec());
    let unknown = TitleQuery { previous: Some("Something Else".to_string()) };
    assert_eq!(title_choices(&unknown), TITLES.to_vec());
    assert!(TITLES.contains(&get_title(&query)));
}

#[test]
fn a_roll_picks_the_title() {
    let query = TitleQuery { previous: Some("DMV".to_string()) };
    assert_eq!(title_at(&query, 0), "DeepScan");
    assert_eq!(title_at(&query, 1), "A Scanner Deeply");
    assert_eq!(title_at(&query, 2), "Twenty Thousand Leagues Under the Sea");
    assert_eq!(title_at(&query, 3), "VESPA");
    assert_eq!(title_at(&query, 4), "DeepScan");
    assert_eq!(title_at(&TitleQuery { previous: None }, 2), "DMV");
    assert_eq!(title_at(&TitleQuery { previous: None }, usize::MAX), TITLES[usize::MAX % 5]);
}

#[test]
fn random_titles_vary() {
    let query = TitleQuery { previous: None };
    let first = get_title(&query);
    assert!((0..200).any(|_| get_title(&query) != first));
}

const FILE: &str = "chunk\tpos\tcondition\taa\tlog2FoldChange\tlog2StdError\tstatistic\tp.value\tversion\n\
                    1\t1\tdrug\tA\t1.5\t0.1\t3\t0.01\tv1\n\
                    1\tone\tdrug\tA\t1.5\t0.1\t3\t0.01\tv1\n\
                    1\t2\tdrug\tC\t-0.5\t0.1\t-1\t0.5\tv1\n";

#[test]
fn an_upload_is_read_and_stored() {
    let mut store = VariantStore::new();
    store.add_protein("GLP1R").unwrap();
    let outcome = upload_file(&mut store, Some("GLP1R"), Some(FILE.as_bytes()));
    assert_eq!(outcome, UploadOutcome::Stored { rows: 2, errors: 1 });
    assert_eq!(store.len(), 2);
    let second = store.fetch_by_id(2).unwrap();
    assert_eq!(second.protein, "GLP1R");
    assert_eq!(second.aa, "C");
    assert_eq!(second.log2_fold_change, -500_000_000);
}

#[test]
fn an_upload_needs_a_protein_and_a_file() {
    let mut store = VariantStore::new();
    store.add_protein("GLP1R").unwrap();
    assert_eq!(
        upload_file(&mut store, None, Some(FILE.as_bytes())),
        UploadOutcome::Rejected(ValidationError::MissingProtein)
    );
    assert_eq!(
        upload_file(&mut store, None, None),
        UploadOutcome::Rejected(ValidationError::MissingProtein)
    );
    assert_eq!(
        upload_file(&mut store, Some("GLP1R"), None),
        UploadOutcome::Rejected(ValidationError::MissingFile)
    );
    assert_eq!(store.len(), 0);
}

#[test]
fn an_upload_that_the_store_refuses_leaves_nothing() {
    let mut store = VariantStore::new();
    store.add_protein("GLP1R").unwrap();
    assert_eq!(
        upload_file(&mut store, Some("GIPR"), Some(FILE.as_bytes())),
        UploadOutcome::Failed(StoreError::NotFound)
    );
    // A p-value of zero reads well and breaks the data model.
    let file = format!("{FILE}1\t3\tdrug\tD\t1\t0.1\t1\t0\tv1\n");
    assert_eq!(
        upload_file(&mut store, Some("GLP1R"), Some(file.as_bytes())),
        UploadOutcome::Failed(StoreError::Storage)
    );
    assert_eq!(store.len(), 0);
}

#[test]
fn an_upload_is_read_before_it_is_stored() {
    let batch = read_upload(Some("GLP1R"), Some(FILE.as_bytes())).unwrap();
    assert_eq!(batch.protein, "GLP1R");
    assert_eq!(batch.rows.len(), 2);
    assert_eq!(batch.errors.len(), 1);
    assert!(batch.rows.iter().all(|row| row.protein == "GLP1R"));
    assert_eq!(read_upload(None, Some(FILE.as_bytes())).unwrap_err(), ValidationError::MissingProtein);
    assert_eq!(read_upload(Some("GLP1R"), None).unwrap_err(), ValidationError::MissingFile);
    assert_eq!(read_upload(None, None).unwrap_err(), ValidationError::MissingProtein);
}

#[test]
fn a_batch_is_taken_or_turned_down() {
    let batch = read_upload(Some("GLP1R"), Some(FILE.as_bytes())).unwrap();
    assert!(is_batch_valid(&batch.rows));
    assert_eq!(check_batch(true, &batch.rows, 0), Ok(2));
    assert_eq!(check_batch(false, &batch.rows, 0), Err(StoreError::NotFound));
    assert_eq!(check_batch(true, &batch.rows, i32::MAX as usize - 2), Ok(2));
    assert_eq!(check_batch(true, &batch.rows, i32::MAX as usize - 1), Err(StoreError::Storage));
    assert_eq!(check_batch(true, &batch.rows, usize::MAX), Err(StoreError::Storage));
    let mut bad = batch.rows;
    bad[1].aa = "?".to_string();
    assert!(!is_batch_valid(&bad));
    assert_eq!(check_batch(true, &bad, 0), Err(StoreError::Storage));
    assert_eq!(check_batch(false, &bad, 0), Err(StoreError::NotFound));
}

#[test]
fn the_end_of_an_upload_is_told() {
    assert_eq!(conclude(Ok(12), 3), UploadOutcome::Stored { rows: 12, errors: 3 });
    assert_eq!(conclude(Err(StoreError::Storage), 3), UploadOutcome::Failed(StoreError::Storage));
    assert_eq!(conclude(Err(StoreError::NotFound), 0), UploadOutcome::Failed(StoreError::NotFound));
}

fn raw() -> RawParams {
    RawParams {
        protein: Some("GLP1R".to_string()),
        condition: Some("drug".to_string()),
        position_filter: Some("LargestZStatistic".to_string()),
        paint: Some("p_value".to_string()),
        threshold: Some(5),
        page: Some(3),
        plot: Some("scatter".to_string()),
    }
}

#[test]
fn the_parts_of_a_request_are_resolved_once() {
    let request = resolve_request(raw()).unwrap();
    assert_eq!(request.protein, "GLP1R");
    assert_eq!(request.condition, "drug");
    assert_eq!(request.position_filter, PositionFilter::LargestZStatistic);
    assert_eq!(request.paint, Paint::PValue);
    assert_eq!(request.operation, None);
    assert_eq!(request.threshold, Some(5));
    assert_eq!(request.page, Some(3));
    assert_eq!(request.plot, Some(PlotType::Scatter));
    let plain = resolve_request(RawParams { threshold: None, page: None, plot: None, ..raw() }).unwrap();
    assert_eq!((plain.threshold, plain.page, plain.plot), (None, None, None));
}

#[test]
fn a_request_that_lacks_a_part_is_turned_down() {
    let fault = |raw: RawParams| resolve_request(raw).unwrap_err();
    assert_eq!(fault(RawParams { protein: None, ..raw() }), ValidationError::MissingProtein);
    assert_eq!(fault(RawParams { condition: None, ..raw() }), ValidationError::MissingCondition);
    assert_eq!(
        fault(RawParams { position_filter: None, ..raw() }),
        ValidationError::MissingPositionFilter
    );
    assert_eq!(
        fault(RawParams { position_filter: Some("Best".to_string()), ..raw() }),
        ValidationError::UnknownPositionFilter
    );
    assert_eq!(fault(RawParams { paint: None, ..raw() }), ValidationError::MissingPaint);
    assert_eq!(
        fault(RawParams { paint: Some("colour".to_string()), ..raw() }),
        ValidationError::UnknownPaint
    );
    assert_eq!(
        fault(RawParams { plot: Some("pie".to_string()), ..raw() }),
        ValidationError::UnknownPlot
    );
    // The first of several faults is named.
    assert_eq!(
        fault(RawParams { protein: None, condition: None, paint: None, ..raw() }),
        ValidationError::MissingProtein
    );
    assert_eq!(
        fault(RawParams { paint: None, position_filter: Some("?".to_string()), ..raw() }),
        ValidationError::UnknownPositionFilter
    );
}

#[test]
fn kinds_of_plot_are_found_by_their_names() {
    assert_eq!(PlotType::parse("heatmap"), Some(PlotType::Heatmap));
    assert_eq!(PlotType::parse("Heatmap"), Some(PlotType::Heatmap));
    assert_eq!(PlotType::parse("scatter"), Some(PlotType::Scatter));
    assert_eq!(PlotType::parse("Scatter"), Some(PlotType::Scatter));
    assert_eq!(PlotType::parse("HEATMAP"), None);
    assert_eq!(PlotType::parse(""), None);
}
