//! What a request decides beside the table itself: the kind of plot, the
//! slider for the threshold and the structure shown next to the table.

use vstd::prelude::*;
use crate::model::{same_str, Paint, PlotType, PositionFilter, TableParams};
use crate::query::MetricRange;

verus! {

/// What a request lacks or gets wrong.
#[derive(Clone, Copy, Debug, PartialEq, Eq, Structural)]
pub enum ValidationError {
    /// The request names no protein.
    MissingProtein,
    /// The request names no condition.
    MissingCondition,
    /// The request names no ranking policy.
    MissingPositionFilter,
    /// The request names a ranking policy that there is not.
    UnknownPositionFilter,
    /// The request names no metric to paint.
    MissingPaint,
    /// The request names a metric that there is not.
    UnknownPaint,
    /// The request names a kind of plot that there is not.
    UnknownPlot,
    /// The request brings no file.
    MissingFile,
    /// The request names no kind of plot.
    MissingPlot,
}

/// The parts of a table request as they arrive: each absent or a text,
/// but for the numbers.
#[derive(Debug)]
pub struct RawParams {
    pub protein: Option<String>,
    pub condition: Option<String>,
    pub position_filter: Option<String>,
    pub paint: Option<String>,
    pub threshold: Option<i64>,
    pub page: Option<i32>,
    pub plot: Option<String>,
}

/// What is wrong with the parts of a request, the first of it, if
/// anything: protein, condition, ranking policy and metric are needed,
/// and what names a policy, a metric or a kind of plot must name one.
pub open spec fn request_fault(raw: RawParams) -> Option<ValidationError> {
    if raw.protein is None {
        Some(ValidationError::MissingProtein)
    } else if raw.condition is None {
        Some(ValidationError::MissingCondition)
    } else if raw.position_filter is None {
        Some(ValidationError::MissingPositionFilter)
    } else if PositionFilter::parse_spec(raw.position_filter.unwrap()@) is None {
        Some(ValidationError::UnknownPositionFilter)
    } else if raw.paint is None {
        Some(ValidationError::MissingPaint)
    } else if Paint::parse_spec(raw.paint.unwrap()@) is None {
        Some(ValidationError::UnknownPaint)
    } else if raw.plot is Some && PlotType::parse_spec(raw.plot.unwrap()@) is None {
        Some(ValidationError::UnknownPlot)
    } else {
        None
    }
}

/// The request that sound parts make: every name resolved once.
pub open spec fn request_of(raw: RawParams) -> TableParams {
    TableParams {
        protein: raw.protein.unwrap(),
        condition: raw.condition.unwrap(),
        position_filter: PositionFilter::parse_spec(raw.position_filter.unwrap()@).unwrap(),
        paint: Paint::parse_spec(raw.paint.unwrap()@).unwrap(),
        operation: None,
        threshold: raw.threshold,
        page: raw.page,
        plot: match raw.plot {
            Some(text) => PlotType::parse_spec(text@),
            None => None,
        },
    }
}

/// Resolves the parts of a request, or says what is wrong with them.
pub fn resolve_request(raw: RawParams) -> (resolved: Result<TableParams, ValidationError>)
    ensures
        resolved == match request_fault(raw) {
            Some(fault) => Err::<TableParams, ValidationError>(fault),
            None => Ok::<TableParams, ValidationError>(request_of(raw)),
        },
{
    let protein: String = match raw.protein {
        Some(protein) => protein,
        None => {
            return Err(ValidationError::MissingProtein);
        },
    };
    let condition: String = match raw.condition {
        Some(condition) => condition,
        None => {
            return Err(ValidationError::MissingCondition);
        },
    };
    let position_filter: PositionFilter = match raw.position_filter {
        Some(text) => match PositionFilter::parse(text.as_str()) {
            Some(policy) => policy,
            None => {
                return Err(ValidationError::UnknownPositionFilter);
            },
        },
        None => {
            return Err(ValidationError::MissingPositionFilter);
        },
    };
    let paint: Paint = match raw.paint {
        Some(text) => match Paint::parse(text.as_str()) {
            Some(paint) => paint,
            None => {
                return Err(ValidationError::UnknownPaint);
            },
        },
        None => {
            return Err(ValidationError::MissingPaint);
        },
    };
    let plot: Option<PlotType> = match raw.plot {
        Some(text) => match PlotType::parse(text.as_str()) {
            Some(kind) => Some(kind),
            None => {
                return Err(ValidationError::UnknownPlot);
            },
        },
        None => None,
    };
    Ok(
        TableParams {
            protein,
            condition,
            position_filter,
            paint,
            operation: None,
            threshold: raw.threshold,
            page: raw.page,
            plot,
        },
    )
}

/// The kind of plot a request asks for; a request that names none is
/// turned down.
pub fn requested_plot(params: &TableParams) -> (plot: Result<PlotType, ValidationError>)
    ensures
        plot == match params.plot {
            Some(kind) => Ok::<PlotType, ValidationError>(kind),
            None => Err::<PlotType, ValidationError>(ValidationError::MissingPlot),
        },
{
    match params.plot {
        Some(kind) => Ok(kind),
        None => Err(ValidationError::MissingPlot),
    }
}

/// The number of steps into which the slider divides the range.
pub const SLIDER_STEPS: i64 = 50;

/// The slider by which a threshold is chosen.
#[derive(Clone, Copy, Debug, PartialEq, Eq, Structural)]
pub struct ThresholdSlider {
    pub min: i64,
    pub max: i64,
    pub step: i64,
}

/// A fiftieth of the way from `min` to `max`, cut off towards zero.
pub open spec fn step_of(min: int, max: int) -> int {
    if max >= min {
        (max - min) / (SLIDER_STEPS as int)
    } else {
        -((min - max) / (SLIDER_STEPS as int))
    }
}

/// The slider over a range: from its least to its greatest value in fifty
/// steps. Only a request without ranking policy has a threshold, and so a
/// slider.
pub open spec fn slider_of(policy: PositionFilter, range: MetricRange) -> Option<ThresholdSlider> {
    if policy == PositionFilter::NoOrder {
        Some(
            ThresholdSlider {
                min: range.min,
                max: range.max,
                step: step_of(range.min as int, range.max as int) as i64,
            },
        )
    } else {
        None
    }
}

/// The slider to offer for a request, over the range of its metric.
pub fn threshold_slider(policy: PositionFilter, range: &MetricRange) -> (slider: Option<
    ThresholdSlider,
>)
    ensures
        slider == slider_of(policy, *range),
{
    match policy {
        PositionFilter::NoOrder => {
            let step: i128 = if range.max >= range.min {
                (range.max as i128 - range.min as i128) / (SLIDER_STEPS as i128)
            } else {
                -((range.min as i128 - range.max as i128) / (SLIDER_STEPS as i128))
            };
            Some(ThresholdSlider { min: range.min, max: range.max, step: step as i64 })
        },
        _ => None,
    }
}

/// The structure shown for a protein, by its identifier in the Protein
/// Data Bank: a structure of its own for three proteins, one and the same
/// for every other.
pub open spec fn pdb_id_of(protein: Seq<char>) -> Seq<char> {
    if protein == "GLP1R"@ {
        "7ki0"@
    } else if protein == "GIPR"@ {
        "8wa3"@
    } else if protein == "RHO"@ {
        "1f88"@
    } else {
        "7s15"@
    }
}

/// The identifier of the structure shown for a protein.
pub fn pdb_id_for(protein: &str) -> (id: &'static str)
    ensures
        id@ == pdb_id_of(protein@),
{
    if same_str(protein, "GLP1R") {
        "7ki0"
    } else if same_str(protein, "GIPR") {
        "8wa3"
    } else if same_str(protein, "RHO") {
        "1f88"
    } else {
        "7s15"
    }
}

} // verus!
