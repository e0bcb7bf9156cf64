//! What each request of the viewer is answered with: the rows are
//! queried, the page ranked, the grid laid out and coloured. Every answer
//! is plain data, and a request carries all that its answer depends on.

use vstd::prelude::*;
use crate::color::Normalizer;
use crate::controls::{
    pdb_id_for, pdb_id_of, requested_plot, slider_of, threshold_slider, ThresholdSlider,
    ValidationError,
};
use crate::grid::{
    are_points, are_pos_colors, is_grid, position_colors, render, requested_page, scatter_points,
    Grid,
};
use crate::model::{
    texts, Paint, PlotType, PosColor, PositionFilter, TableParams, Variant, VariantColor,
};
use crate::query::{
    all_rows, any_in_scope, conditions_of, distinct_conditions, fetch_all, fetch_page, is_range_of,
    range_and_extremum, scope_window, window_of, MetricRange, StoreError,
};
use crate::ranking::{page_rows, PageWindow};

verus! {

/// The answer to a request for a page of the table.
#[derive(Debug)]
pub struct VariantsView {
    /// The positions of the page.
    pub window: PageWindow,
    /// The range of the painted metric, where the protein has rows under
    /// the condition.
    pub range: Option<MetricRange>,
    /// The cells of the page.
    pub grid: Grid,
    /// The colour of every row of the page by its position.
    pub colors: Vec<PosColor>,
}

/// The answer to a request for the scatter plot.
#[derive(Debug)]
pub struct ScatterView {
    /// The range of the painted metric, which sets the colours.
    pub scale: MetricRange,
    /// The range of the fold change, which sets the axis.
    pub axis: MetricRange,
    /// A point for every row.
    pub points: Vec<VariantColor>,
}

/// The answer to a request for the conditions of a protein.
#[derive(Debug)]
pub struct ConditionsView {
    pub conditions: Vec<String>,
    /// The structure to show beside the table.
    pub pdb_id: &'static str,
}

/// The answer to a request for a plot.
#[derive(Debug)]
pub enum Plot {
    /// The table, whose pages are asked for one by one.
    Heatmap,
    /// The scatter plot, or the reason why there is none.
    Scatter(Result<ScatterView, StoreError>),
}

/// The extent of the colour scale for a range; without a range there is
/// nothing to colour, and the extent is 0.
pub open spec fn scale_of(range: Option<MetricRange>) -> int {
    match range {
        Some(r) => r.max_abs as int,
        None => 0,
    }
}

/// Whether `view` answers a request for a page of the table over `rows`.
pub open spec fn is_variants_view(
    view: VariantsView,
    rows: Seq<Variant>,
    window: PageWindow,
    params: TableParams,
    offset: int,
) -> bool {
    let page = page_rows(
        rows,
        params.protein@,
        params.condition@,
        params.position_filter,
        params.paint,
        params.threshold,
        window,
    );
    &&& view.window == window
    &&& match view.range {
        Some(r) => is_range_of(r, rows, params.protein@, params.condition@, params.paint),
        None => !any_in_scope(rows, params.protein@, params.condition@),
    }
    &&& is_grid(view.grid, page, window, scale_of(view.range), params.paint, params, offset)
    &&& are_pos_colors(view.colors@, page, scale_of(view.range), params.paint)
}

/// Answers a request for a page of the table: the rows of the page, ranked
/// as the request asks, laid out as a grid that is coloured by the painted
/// metric against its greatest magnitude, with the mark for the next page
/// `offset` positions before the end. A protein without rows under the
/// condition gets its grid as well, with a window that is not held back
/// and bare cells throughout.
pub fn get_variants(rows: &Vec<Variant>, params: &TableParams, offset: i64) -> (view:
    VariantsView)
    ensures
        is_variants_view(
            view,
            rows@,
            window_of(rows@, params.protein@, params.condition@, requested_page(*params)),
            *params,
            offset as int,
        ),
{
    let page: i32 = match params.page {
        Some(p) => p,
        None => 1,
    };
    let protein: &str = params.protein.as_str();
    let condition: &str = params.condition.as_str();
    let window: PageWindow = scope_window(rows, protein, condition, page);
    let shown: Vec<Variant> = fetch_page(
        rows,
        protein,
        condition,
        page,
        params.position_filter,
        params.paint,
        params.threshold,
    );
    let range: Option<MetricRange> = match range_and_extremum(
        rows,
        protein,
        condition,
        params.paint,
    ) {
        Ok(r) => Some(r),
        Err(_) => None,
    };
    let normalizer: Normalizer = Normalizer {
        max_abs: match range {
            Some(r) => r.max_abs,
            None => 0,
        },
    };
    let grid: Grid = render(&shown, window, &normalizer, params.paint, params, offset);
    let colors: Vec<PosColor> = position_colors(&shown, &normalizer, params.paint);
    VariantsView { window, range, grid, colors }
}

/// Whether `view` answers a request for the scatter plot over `rows`.
pub open spec fn is_scatter_view(view: ScatterView, rows: Seq<Variant>, params: TableParams)
    -> bool {
    &&& is_range_of(view.scale, rows, params.protein@, params.condition@, params.paint)
    &&& is_range_of(view.axis, rows, params.protein@, params.condition@, Paint::Log2FoldChange)
    &&& are_points(
        view.points@,
        all_rows(rows, params.protein@, params.condition@),
        view.scale.max_abs as int,
        params.paint,
    )
}

/// Answers a request for the scatter plot: a point for every row of the
/// protein under the condition, coloured by the painted metric, and the
/// range of the fold change for the axis. Without rows there is no plot.
pub fn get_scatter_plot(rows: &Vec<Variant>, params: &TableParams) -> (view: Result<
    ScatterView,
    StoreError,
>)
    ensures
        match view {
            Ok(plot) => is_scatter_view(plot, rows@, *params),
            Err(e) => e == StoreError::NotFound && !any_in_scope(
                rows@,
                params.protein@,
                params.condition@,
            ),
        },
{
    let protein: &str = params.protein.as_str();
    let condition: &str = params.condition.as_str();
    let scale: MetricRange = match range_and_extremum(rows, protein, condition, params.paint) {
        Ok(r) => r,
        Err(e) => {
            return Err(e);
        },
    };
    let axis: MetricRange = match range_and_extremum(
        rows,
        protein,
        condition,
        Paint::Log2FoldChange,
    ) {
        Ok(r) => r,
        Err(e) => {
            return Err(e);
        },
    };
    let all: Vec<Variant> = fetch_all(rows, protein, condition);
    let normalizer: Normalizer = Normalizer { max_abs: scale.max_abs };
    let points: Vec<VariantColor> = scatter_points(&all, &normalizer, params.paint);
    Ok(ScatterView { scale, axis, points })
}

/// Answers a request for a plot by its kind. A request that names no kind
/// is turned down.
pub fn get_plot(rows: &Vec<Variant>, params: &TableParams) -> (plot: Result<Plot, ValidationError>)
    ensures
        match params.plot {
            None => plot matches Err(e) && e == ValidationError::MissingPlot,
            Some(PlotType::Heatmap) => plot matches Ok(p) && p is Heatmap,
            Some(PlotType::Scatter) => plot matches Ok(Plot::Scatter(view)) && match view {
                Ok(scatter) => is_scatter_view(scatter, rows@, *params),
                Err(e) => e == StoreError::NotFound && !any_in_scope(
                    rows@,
                    params.protein@,
                    params.condition@,
                ),
            },
        },
{
    match requested_plot(params) {
        Ok(PlotType::Heatmap) => Ok(Plot::Heatmap),
        Ok(PlotType::Scatter) => Ok(Plot::Scatter(get_scatter_plot(rows, params))),
        Err(e) => Err(e),
    }
}

/// Answers a request for the conditions of a protein, with the structure
/// to show for it. A request that names no protein is turned down, and
/// nothing is asked of the rows.
pub fn get_conditions(rows: &Vec<Variant>, protein: Option<&str>) -> (view: Result<
    ConditionsView,
    ValidationError,
>)
    ensures
        match view {
            Ok(found) => {
                &&& protein is Some
                &&& texts(found.conditions@) == conditions_of(rows@, protein.unwrap()@)
                &&& found.pdb_id@ == pdb_id_of(protein.unwrap()@)
            },
            Err(fault) => protein is None && fault == ValidationError::MissingProtein,
        },
{
    match protein {
        Some(name) => Ok(
            ConditionsView {
                conditions: distinct_conditions(rows, name),
                pdb_id: pdb_id_for(name),
            },
        ),
        None => Err(ValidationError::MissingProtein),
    }
}

/// Answers a request for the slider of the threshold: over the range of
/// the painted metric where the request has no ranking policy, none
/// where it has one. Without rows there is no range to slide over.
pub fn get_threshold_for_paint_by(rows: &Vec<Variant>, params: &TableParams) -> (slider: Result<
    Option<ThresholdSlider>,
    StoreError,
>)
    ensures
        params.position_filter != PositionFilter::NoOrder ==> slider == Ok::<
            Option<ThresholdSlider>,
            StoreError,
        >(None),
        params.position_filter == PositionFilter::NoOrder ==> match slider {
            Ok(found) => exists|range: MetricRange|
                is_range_of(range, rows@, params.protein@, params.condition@, params.paint)
                    && found == slider_of(PositionFilter::NoOrder, range),
            Err(e) => e == StoreError::NotFound && !any_in_scope(
                rows@,
                params.protein@,
                params.condition@,
            ),
        },
{
    match params.position_filter {
        PositionFilter::NoOrder => {
            match range_and_extremum(
                rows,
                params.protein.as_str(),
                params.condition.as_str(),
                params.paint,
            ) {
                Ok(range) => Ok(threshold_slider(PositionFilter::NoOrder, &range)),
                Err(e) => Err(e),
            }
        },
        _ => Ok(None),
    }
}

} // verus!
