use dms_viewer::grid::{find_match, make_cell, position_colors, render, scatter_points, PREFETCH_OFFSET};
use dms_viewer::ranking::page_window;
use dms_viewer::{
    Normalizer, PageWindow, Paint, PlotType, PositionFilter, TableParams, Variant, AMINO_ACIDS,
};

fn row(id: Option<i32>, pos: i32, aa: &str, fold: i64, stat: i64, p: i64) -> Variant {
    Variant {
        id,
        chunk: 1,
        pos,
        condition: "drug".to_string(),
        aa: aa.to_string(),
        log2_fold_change: fold,
        log2_std_error: 3,
        statistic: stat,
        p_value: p,
        version: "v1".to_string(),
        protein: "GLP1R".to_string(),
        created_on: 0,
    }
}

fn params(page: Option<i32>) -> TableParams {
    TableParams {
        protein: "GLP1R".to_string(),
        condition: "drug".to_string(),
        position_filter: PositionFilter::LargestZStatistic,
        paint: Paint::ZStatistic,
        operation: None,
        threshold: Some(17),
        page,
        plot: Some(PlotType::Heatmap),
    }
}

#[test]
fn the_grid_has_a_cell_for_every_position_and_symbol() {
    let scale = Normalizer { max_abs: 100 };
    let rows = vec![row(Some(1), 3, "A", 50, 0, 0)];
    for (window, positions) in [
        (PageWindow { start: 1, end: 100 }, 100usize),
        (PageWindow { start: 101, end: 150 }, 50),
        (PageWindow { start: 5, end: 6 }, 2),
        (PageWindow { start: 5, end: 5 }, 1),
        (PageWindow { start: 5, end: 4 }, 0),
        (PageWindow { start: 201, end: 150 }, 0),
    ] {
        let grid = render(&rows, window, &scale, Paint::Log2FoldChange, &params(None), PREFETCH_OFFSET);
        assert_eq!(grid.cells.len(), positions * AMINO_ACIDS.len());
        for (n, cell) in grid.cells.iter().enumerate() {
            assert_eq!(cell.position, window.start + (n / 21) as i64);
            assert_eq!(cell.amino_acid, AMINO_ACIDS[n % 21]);
        }
    }
}

#[test]
fn cells_are_filled_where_a_row_matches() {
    let scale = Normalizer { max_abs: 1000 };
    let rows = vec![
        row(Some(11), 3, "C", -500, 250, 980),
        row(Some(12), 3, "C", 1000, 1000, 1000),
        row(None, 4, "*", 250, -1000, 7),
    ];
    let window = PageWindow { start: 3, end: 4 };
    let grid = render(&rows, window, &scale, Paint::Log2FoldChange, &params(None), PREFETCH_OFFSET);
    assert_eq!(grid.cells.len(), 42);
    for (n, cell) in grid.cells.iter().enumerate() {
        if n == 2 {
            // Position 3, symbol C: the first of the two rows.
            assert_eq!(cell.value, Some(-500));
            assert_eq!(cell.color.as_deref(), Some("#FF8080"));
            assert_eq!(cell.variant_id, Some(11));
        } else if n == 21 {
            // Position 4, the stop symbol: a row without id.
            assert_eq!(cell.value, Some(250));
            assert_eq!(cell.color.as_deref(), Some("#BFBFFF"));
            assert_eq!(cell.variant_id, None);
        } else {
            assert_eq!(cell.value, None);
            assert_eq!(cell.color, None);
            assert_eq!(cell.variant_id, None);
        }
    }
}

#[test]
fn cells_carry_the_painted_metric() {
    let scale = Normalizer { max_abs: 1000 };
    let rows = vec![row(Some(11), 3, "C", -500, 250, 980)];
    let by_stat = make_cell(&rows, 3, 2, &scale, Paint::ZStatistic);
    assert_eq!(by_stat.value, Some(250));
    assert_eq!(by_stat.color.as_deref(), Some("#BFBFFF"));
    let by_p = make_cell(&rows, 3, 2, &scale, Paint::PValue);
    assert_eq!(by_p.value, Some(980));
    assert_eq!(by_p.color.as_deref(), Some("#0505FF"));
    let bare = make_cell(&rows, 3, 3, &scale, Paint::PValue);
    assert_eq!((bare.position, bare.amino_acid.as_str()), (3, "D"));
    assert_eq!((bare.value, bare.color, bare.variant_id), (None, None, None));
}

#[test]
fn the_first_matching_row_is_found() {
    let rows = vec![row(Some(1), 3, "A", 0, 0, 0), row(Some(2), 3, "C", 0, 0, 0), row(Some(3), 3, "C", 0, 0, 0)];
    assert_eq!(find_match(&rows, 3, "C"), Some(1));
    assert_eq!(find_match(&rows, 3, "A"), Some(0));
    assert_eq!(find_match(&rows, 3, "D"), None);
    assert_eq!(find_match(&rows, 4, "C"), None);
}

#[test]
fn the_mark_for_the_next_page_stands_before_the_end() {
    let scale = Normalizer { max_abs: 100 };
    let rows = Vec::new();
    let window = page_window(1, None);
    let grid = render(&rows, window, &scale, Paint::ZStatistic, &params(Some(1)), PREFETCH_OFFSET);
    let mark = grid.lazy_load.expect("a mark");
    // Fifteen positions before the last: position 85, the 85th of the page.
    assert_eq!(mark.after_cell, 84 * 21 + 20);
    assert_eq!(grid.cells[mark.after_cell].position, 85);
    assert_eq!(grid.cells[mark.after_cell].amino_acid, "Y");
    assert_eq!(mark.next.page, Some(2));
    assert_eq!(mark.next.protein, "GLP1R");
    assert_eq!(mark.next.condition, "drug");
    assert_eq!(mark.next.position_filter, PositionFilter::LargestZStatistic);
    assert_eq!(mark.next.paint, Paint::ZStatistic);
    assert_eq!(mark.next.threshold, Some(17));
    assert_eq!(mark.next.plot, Some(PlotType::Heatmap));
    assert_eq!(mark.next.operation, None);
}

#[test]
fn the_offset_of_the_mark_can_be_chosen() {
    let scale = Normalizer { max_abs: 100 };
    let rows = Vec::new();
    let window = PageWindow { start: 101, end: 200 };
    let at = |offset: i64| {
        render(&rows, window, &scale, Paint::ZStatistic, &params(Some(2)), offset)
            .lazy_load
            .map(|mark| (mark.after_cell, mark.next.page))
    };
    assert_eq!(at(5), Some((94 * 21 + 20, Some(3))));
    assert_eq!(at(1), Some((98 * 21 + 20, Some(3))));
    // An offset of nothing is the last position.
    assert_eq!(at(0), Some((99 * 21 + 20, Some(3))));
    assert_eq!(at(99), Some((20, Some(3))));
    // Outside the positions of the window there is no mark.
    assert_eq!(at(100), None);
    assert_eq!(at(101), None);
    assert_eq!(at(-4), None);
    assert_eq!(at(i64::MAX), None);
    assert_eq!(at(i64::MIN), None);
}

#[test]
fn a_short_last_page_has_no_mark() {
    let scale = Normalizer { max_abs: 100 };
    let rows = Vec::new();
    let grid = render(&rows, page_window(3, Some(210)), &scale, Paint::ZStatistic, &params(Some(3)), PREFETCH_OFFSET);
    assert_eq!(grid.cells.len(), 10 * 21);
    assert!(grid.lazy_load.is_none());
}

#[test]
fn a_request_without_page_is_the_first() {
    let scale = Normalizer { max_abs: 100 };
    let grid = render(&Vec::new(), page_window(1, None), &scale, Paint::ZStatistic, &params(None), PREFETCH_OFFSET);
    assert_eq!(grid.lazy_load.expect("a mark").next.page, Some(2));
}

#[test]
fn after_the_last_page_number_there_is_no_mark() {
    let scale = Normalizer { max_abs: 100 };
    let window = page_window(i32::MAX, None);
    let grid = render(&Vec::new(), window, &scale, Paint::ZStatistic, &params(Some(i32::MAX)), PREFETCH_OFFSET);
    assert_eq!(grid.cells.len(), 2100);
    assert!(grid.lazy_load.is_none());
}

#[test]
fn every_row_has_the_colour_of_its_position() {
    let scale = Normalizer { max_abs: 1000 };
    let rows = vec![row(Some(1), 3, "C", -500, 250, 980), row(Some(2), 9, "A", 0, -1000, 1000)];
    let colors = position_colors(&rows, &scale, Paint::Log2FoldChange);
    assert_eq!(colors.len(), 2);
    assert_eq!((colors[0].pos, colors[0].color.as_str()), (3, "#FF8080"));
    assert_eq!((colors[1].pos, colors[1].color.as_str()), (9, "#FFFFFF"));
    let colors = position_colors(&rows, &scale, Paint::ZStatistic);
    assert_eq!((colors[0].pos, colors[0].color.as_str()), (3, "#BFBFFF"));
    assert_eq!((colors[1].pos, colors[1].color.as_str()), (9, "#FF0000"));
}

#[test]
fn scatter_points_are_the_rows_with_an_id() {
    let scale = Normalizer { max_abs: 1000 };
    let rows = vec![
        row(Some(5), 3, "C", -500, 250, 980),
        row(None, 4, "D", 1, 2, 3),
        row(Some(6), 9, "A", 0, -1000, 1000),
    ];
    let points = scatter_points(&rows, &scale, Paint::PValue);
    assert_eq!(points.len(), 2);
    assert_eq!(points[0].id, 5);
    assert_eq!(points[0].pos, 3);
    assert_eq!(points[0].aa, "C");
    assert_eq!(points[0].log2_fold_change, -500);
    assert_eq!(points[0].log2_std_error, 3);
    assert_eq!(points[0].statistic, 250);
    assert_eq!(points[0].p_value, 980);
    assert_eq!(points[0].color, "#0505FF");
    assert_eq!(points[1].id, 6);
    assert_eq!(points[1].color, "#0000FF");
}

#[test]
fn a_cell_is_filled_with_value_colour_and_id() {
    let scale = Normalizer { max_abs: 1000 };
    let rows = vec![row(Some(11), 3, "C", -500, 250, 980), row(None, 3, "D", 1, 2, 3)];
    assert!(make_cell(&rows, 3, 2, &scale, Paint::ZStatistic).is_filled());
    // A row without id gives its cell value and colour, and no more.
    let nameless = make_cell(&rows, 3, 3, &scale, Paint::ZStatistic);
    assert!(nameless.value.is_some() && nameless.color.is_some());
    assert!(!nameless.is_filled());
    assert!(!make_cell(&rows, 3, 4, &scale, Paint::ZStatistic).is_filled());
}

#[test]
fn the_last_position_of_a_window_is_laid_out() {
    let scale = Normalizer { max_abs: 1000 };
    let rows = vec![row(Some(1), 57, "Y", 500, 0, 0), row(Some(2), 58, "Y", 500, 0, 0)];
    let grid = render(&rows, page_window(1, Some(57)), &scale, Paint::Log2FoldChange, &params(None), PREFETCH_OFFSET);
    assert_eq!(grid.cells.len(), 57 * 21);
    let last = grid.cells.last().unwrap();
    assert_eq!((last.position, last.amino_acid.as_str(), last.variant_id), (57, "Y", Some(1)));
    assert!(grid.cells.iter().all(|cell| 1 <= cell.position && cell.position <= 57));
}
