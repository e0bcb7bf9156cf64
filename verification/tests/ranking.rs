use dms_viewer::ranking::{
    find_winner, is_better, ordered_rows, page_window, ranked_rows, select_page,
};
use dms_viewer::{PageWindow, Paint, PositionFilter, Variant};

fn row(id: i32, pos: i32, aa: &str, fold: i64, stat: i64, p: i64) -> Variant {
    Variant {
        id: Some(id),
        chunk: 1,
        pos,
        condition: "drug".to_string(),
        aa: aa.to_string(),
        log2_fold_change: fold,
        log2_std_error: 1,
        statistic: stat,
        p_value: p,
        version: "v1".to_string(),
        protein: "GLP1R".to_string(),
        created_on: 0,
    }
}

fn ids(rows: &[Variant]) -> Vec<i32> {
    rows.iter().map(|r| r.id.unwrap()).collect()
}

const WHOLE: PageWindow = PageWindow { start: 1, end: 100 };

#[test]
fn most_significant_p_value_wins() {
    // p-values 0.5, 0.01 and 0.2 at one position.
    let rows = vec![
        row(1, 7, "A", 0, 0, 500_000_000),
        row(2, 7, "C", 0, 0, 10_000_000),
        row(3, 7, "D", 0, 0, 200_000_000),
    ];
    let shown = ranked_rows(&rows, PositionFilter::MostSignificantPValue, "GLP1R", "drug", WHOLE);
    assert_eq!(ids(&shown), vec![2]);
    assert_eq!(shown[0].p_value, 10_000_000);
    assert_eq!(
        find_winner(&rows, PositionFilter::MostSignificantPValue, "GLP1R", "drug", 7),
        Some(1)
    );
}

#[test]
fn largest_fold_change_wins() {
    let rows = vec![
        row(1, 7, "A", -3, 9, 5),
        row(2, 7, "C", 12, 1, 5),
        row(3, 7, "D", 4, 2, 5),
    ];
    let shown = ranked_rows(&rows, PositionFilter::LargestLog2FoldChange, "GLP1R", "drug", WHOLE);
    assert_eq!(ids(&shown), vec![2]);
}

#[test]
fn largest_statistic_wins() {
    let rows = vec![
        row(1, 7, "A", -3, 9, 5),
        row(2, 7, "C", 12, 1, 5),
        row(3, 7, "D", 4, 2, 5),
    ];
    let shown = ranked_rows(&rows, PositionFilter::LargestZStatistic, "GLP1R", "drug", WHOLE);
    assert_eq!(ids(&shown), vec![1]);
}

#[test]
fn the_first_of_equal_rows_wins() {
    let rows = vec![
        row(1, 7, "Y", 4, 2, 30),
        row(2, 7, "A", 8, 6, 10),
        row(3, 7, "C", 8, 6, 10),
    ];
    for policy in [
        PositionFilter::MostSignificantPValue,
        PositionFilter::LargestLog2FoldChange,
        PositionFilter::LargestZStatistic,
    ] {
        assert_eq!(ids(&ranked_rows(&rows, policy, "GLP1R", "drug", WHOLE)), vec![2]);
    }
}

#[test]
fn extreme_values_of_64_bits_rank_without_overflow() {
    let rows = vec![row(1, 1, "A", i64::MIN, i64::MIN, 1), row(2, 1, "C", i64::MAX, i64::MAX, 1)];
    assert_eq!(
        ids(&ranked_rows(&rows, PositionFilter::LargestLog2FoldChange, "GLP1R", "drug", WHOLE)),
        vec![2]
    );
    assert_eq!(
        ids(&ranked_rows(&rows, PositionFilter::LargestZStatistic, "GLP1R", "drug", WHOLE)),
        vec![2]
    );
}

#[test]
fn one_winner_for_each_position_by_position() {
    let rows = vec![
        row(1, 9, "A", 1, 1, 9),
        row(2, 3, "C", 1, 1, 7),
        row(3, 9, "D", 1, 1, 2),
        row(4, 3, "E", 1, 1, 8),
        row(5, 5, "F", 1, 1, 4),
    ];
    let shown = ranked_rows(&rows, PositionFilter::MostSignificantPValue, "GLP1R", "drug", WHOLE);
    assert_eq!(ids(&shown), vec![2, 5, 3]);
}

#[test]
fn ranking_looks_at_rows_in_scope_only() {
    let mut other_protein = row(1, 7, "A", 0, 0, 1);
    other_protein.protein = "GIPR".to_string();
    let mut other_condition = row(2, 7, "A", 0, 0, 2);
    other_condition.condition = "vehicle".to_string();
    let rows = vec![other_protein, other_condition, row(3, 7, "A", 0, 0, 3)];
    let shown = ranked_rows(&rows, PositionFilter::MostSignificantPValue, "GLP1R", "drug", WHOLE);
    assert_eq!(ids(&shown), vec![3]);
}

#[test]
fn ranking_keeps_to_the_window() {
    let rows = vec![row(1, 4, "A", 0, 0, 1), row(2, 5, "A", 0, 0, 1), row(3, 8, "A", 0, 0, 1), row(4, 9, "A", 0, 0, 1)];
    let window = PageWindow { start: 5, end: 8 };
    let shown = ranked_rows(&rows, PositionFilter::MostSignificantPValue, "GLP1R", "drug", window);
    assert_eq!(ids(&shown), vec![2, 3]);
}

#[test]
fn without_policy_every_row_passes() {
    let rows = vec![
        row(1, 9, "C", 1, 1, 9),
        row(2, 3, "Y", 1, 1, 7),
        row(3, 9, "A", 1, 1, 2),
        row(4, 3, "*", 1, 1, 8),
        row(5, 3, "Y", 1, 1, 4),
        row(6, 9, "C", 1, 1, 4),
    ];
    let shown = ordered_rows(&rows, "GLP1R", "drug", Paint::PValue, None, WHOLE);
    // By position, then by symbol; rows of one cell in their order.
    assert_eq!(ids(&shown), vec![4, 2, 5, 3, 1, 6]);
}

#[test]
fn symbols_outside_the_alphabet_come_last_at_their_position() {
    let rows = vec![row(1, 3, "Z", 1, 1, 9), row(2, 3, "Y", 1, 1, 7), row(3, 4, "*", 1, 1, 7), row(4, 3, "", 1, 1, 7)];
    let shown = ordered_rows(&rows, "GLP1R", "drug", Paint::PValue, None, WHOLE);
    assert_eq!(ids(&shown), vec![2, 1, 4, 3]);
}

#[test]
fn a_threshold_keeps_what_lies_strictly_below() {
    let rows = vec![
        row(1, 1, "A", 10, 100, 1000),
        row(2, 2, "A", 20, 200, 2000),
        row(3, 3, "A", 30, 300, 3000),
    ];
    let by_p = ordered_rows(&rows, "GLP1R", "drug", Paint::PValue, Some(2000), WHOLE);
    assert_eq!(ids(&by_p), vec![1]);
    let by_fold = ordered_rows(&rows, "GLP1R", "drug", Paint::Log2FoldChange, Some(21), WHOLE);
    assert_eq!(ids(&by_fold), vec![1, 2]);
    let by_stat = ordered_rows(&rows, "GLP1R", "drug", Paint::ZStatistic, Some(100), WHOLE);
    assert_eq!(ids(&by_stat), Vec::<i32>::new());
}

#[test]
fn select_page_follows_the_policy() {
    let rows = vec![row(1, 7, "C", 5, 1, 30), row(2, 7, "A", 1, 9, 10), row(3, 8, "A", 1, 1, 10)];
    let all = select_page(&rows, "GLP1R", "drug", PositionFilter::NoOrder, Paint::PValue, None, WHOLE);
    assert_eq!(ids(&all), vec![2, 1, 3]);
    // The threshold bears on unranked pages only.
    let best = select_page(
        &rows,
        "GLP1R",
        "drug",
        PositionFilter::LargestLog2FoldChange,
        Paint::PValue,
        Some(0),
        WHOLE,
    );
    assert_eq!(ids(&best), vec![1, 3]);
}

#[test]
fn the_first_page_covers_positions_1_to_100() {
    let window = page_window(1, None);
    assert_eq!(window, PageWindow { start: 1, end: 100 });
    assert_eq!(page_window(2, None), PageWindow { start: 101, end: 200 });
    assert_eq!(page_window(3, Some(1000)), PageWindow { start: 201, end: 300 });
}

#[test]
fn a_window_is_held_back_at_the_greatest_position() {
    assert_eq!(page_window(1, Some(57)), PageWindow { start: 1, end: 57 });
    assert_eq!(page_window(2, Some(150)), PageWindow { start: 101, end: 150 });
    assert_eq!(page_window(1, Some(99)), PageWindow { start: 1, end: 99 });
    assert_eq!(page_window(1, Some(100)), PageWindow { start: 1, end: 100 });
    assert_eq!(page_window(1, Some(101)), PageWindow { start: 1, end: 100 });
    assert_eq!(page_window(2, Some(101)), PageWindow { start: 101, end: 101 });
    // Past the end the window is empty.
    assert_eq!(page_window(3, Some(150)), PageWindow { start: 201, end: 150 });
}

#[test]
fn pages_of_any_number_have_a_window() {
    assert_eq!(page_window(0, None), PageWindow { start: -99, end: 0 });
    assert_eq!(
        page_window(i32::MAX, None),
        PageWindow { start: 214_748_364_601, end: 214_748_364_700 }
    );
    assert_eq!(
        page_window(i32::MIN, None),
        PageWindow { start: -214_748_364_899, end: -214_748_364_800 }
    );
}

#[test]
fn rows_at_both_ends_of_a_window_are_on_the_page() {
    let rows = vec![
        row(1, 0, "A", 0, 0, 1),
        row(2, 1, "A", 0, 0, 1),
        row(3, 100, "A", 0, 0, 1),
        row(4, 101, "A", 0, 0, 1),
    ];
    for policy in [PositionFilter::NoOrder, PositionFilter::MostSignificantPValue] {
        let first = select_page(&rows, "GLP1R", "drug", policy, Paint::PValue, None, page_window(1, None));
        assert_eq!(ids(&first), vec![2, 3]);
        let second = select_page(&rows, "GLP1R", "drug", policy, Paint::PValue, None, page_window(2, None));
        assert_eq!(ids(&second), vec![4]);
    }
}

#[test]
fn an_empty_window_shows_nothing() {
    let rows = vec![row(1, 7, "C", 5, 1, 30)];
    let window = PageWindow { start: 201, end: 150 };
    for policy in [PositionFilter::NoOrder, PositionFilter::MostSignificantPValue] {
        assert!(select_page(&rows, "GLP1R", "drug", policy, Paint::PValue, None, window).is_empty());
    }
}

#[test]
fn better_is_strict() {
    let a = row(1, 1, "A", 5, 7, 10);
    let b = row(2, 1, "A", 5, 8, 20);
    assert!(is_better(PositionFilter::MostSignificantPValue, &a, &b));
    assert!(!is_better(PositionFilter::MostSignificantPValue, &b, &a));
    assert!(!is_better(PositionFilter::LargestLog2FoldChange, &a, &b));
    assert!(!is_better(PositionFilter::LargestLog2FoldChange, &b, &a));
    assert!(is_better(PositionFilter::LargestZStatistic, &b, &a));
    assert!(!is_better(PositionFilter::NoOrder, &a, &b));
}
