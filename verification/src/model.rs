//! The data model: variant rows, the amino-acid alphabet and the query
//! vocabulary shared by every component.
//!
//! Measured quantities (fold change, standard error, statistic, p-value) are
//! held as signed fixed-point integers counting [`METRIC_SCALE`]-ths, and
//! timestamps as microseconds since the Unix epoch.

use vstd::prelude::*;

verus! {

/// Number of positions that one page of the table covers.
pub const PAGE_SIZE: i32 = 100;

/// Fixed-point units per one whole unit of a metric.
pub const METRIC_SCALE: i64 = 1_000_000_000;

/// The symbols a variant may carry, in display order; `*` is the stop symbol.
pub const AMINO_ACIDS: [&'static str; 21] = [
    "*", "A", "C", "D", "E", "F", "G", "H", "I", "K", "L", "M", "N", "P", "Q", "R", "S", "T", "V",
    "W", "Y",
];

/// One measured effect of one substitution.
#[derive(Debug)]
pub struct Variant {
    pub id: Option<i32>,
    pub chunk: i32,
    pub pos: i32,
    pub condition: String,
    pub aa: String,
    pub log2_fold_change: i64,
    pub log2_std_error: i64,
    pub statistic: i64,
    pub p_value: i64,
    pub version: String,
    pub protein: String,
    pub created_on: i64,
}

impl Clone for Variant {
    fn clone(&self) -> (res: Self)
        ensures
            res == *self,
    {
        Variant {
            id: self.id,
            chunk: self.chunk,
            pos: self.pos,
            condition: self.condition.clone(),
            aa: self.aa.clone(),
            log2_fold_change: self.log2_fold_change,
            log2_std_error: self.log2_std_error,
            statistic: self.statistic,
            p_value: self.p_value,
            version: self.version.clone(),
            protein: self.protein.clone(),
            created_on: self.created_on,
        }
    }
}

/// A protein that variants may refer to.
#[derive(Debug)]
pub struct Protein {
    pub id: i32,
    pub name: String,
}

/// The colour chosen for the row shown at a position.
#[derive(Debug)]
pub struct PosColor {
    pub pos: i32,
    pub color: String,
}

/// A point of the scatter plot: the measurements of a row with its colour.
#[derive(Debug)]
pub struct VariantColor {
    pub id: i32,
    pub pos: i32,
    pub aa: String,
    pub log2_fold_change: i64,
    pub log2_std_error: i64,
    pub statistic: i64,
    pub p_value: i64,
    pub color: String,
}

/// The rule that picks the row shown for a position.
#[derive(Clone, Copy, Debug, PartialEq, Eq, Structural)]
pub enum PositionFilter {
    MostSignificantPValue,
    LargestLog2FoldChange,
    LargestZStatistic,
    NoOrder,
}

/// The metric that drives the colour of a cell.
#[derive(Clone, Copy, Debug, PartialEq, Eq, Structural)]
pub enum Paint {
    PValue,
    Log2FoldChange,
    ZStatistic,
}

/// A way of summarising several rows of one cell.
#[derive(Clone, Copy, Debug, PartialEq, Eq, Structural)]
pub enum Operation {
    Mean,
    Maximum,
    Minimum,
}

/// The kind of plot a request asks for.
#[derive(Clone, Copy, Debug, PartialEq, Eq, Structural)]
pub enum PlotType {
    Heatmap,
    Scatter,
}

/// Everything one table request carries; a request describes itself fully.
#[derive(Debug)]
pub struct TableParams {
    pub protein: String,
    pub condition: String,
    pub position_filter: PositionFilter,
    pub paint: Paint,
    pub operation: Option<Operation>,
    pub threshold: Option<i64>,
    pub page: Option<i32>,
    pub plot: Option<PlotType>,
}

impl Clone for TableParams {
    fn clone(&self) -> (res: Self)
        ensures
            res == *self,
    {
        TableParams {
            protein: self.protein.clone(),
            condition: self.condition.clone(),
            position_filter: self.position_filter,
            paint: self.paint,
            operation: self.operation,
            threshold: self.threshold,
            page: self.page,
            plot: self.plot,
        }
    }
}

/// The characters of each text of a list.
pub open spec fn texts(list: Seq<String>) -> Seq<Seq<char>> {
    Seq::new(list.len(), |i: int| list[i]@)
}

/// The protein name a row carries until the caller's name replaces it.
pub fn default_protein() -> (name: String)
    ensures
        name@ == "unknown"@,
{
    String::from_str("unknown")
}

/// Whether an owned text and a borrowed one hold the same characters.
pub fn same_text(a: &String, b: &str) -> (same: bool)
    ensures
        same == (a@ == b@),
{
    let owned: String = String::from_str(b);
    *a == owned
}

/// Whether two borrowed texts hold the same characters.
pub fn same_str(a: &str, b: &str) -> (same: bool)
    ensures
        same == (a@ == b@),
{
    let left: String = String::from_str(a);
    let right: String = String::from_str(b);
    left == right
}

impl Paint {
    /// The column name of this metric.
    pub open spec fn name(self) -> Seq<char> {
        match self {
            Paint::Log2FoldChange => "log2_fold_change"@,
            Paint::PValue => "p_value"@,
            Paint::ZStatistic => "statistic"@,
        }
    }

    /// The column name of this metric.
    pub fn to_string(&self) -> (text: String)
        ensures
            text@ == self.name(),
    {
        match self {
            Paint::Log2FoldChange => String::from_str("log2_fold_change"),
            Paint::PValue => String::from_str("p_value"),
            Paint::ZStatistic => String::from_str("statistic"),
        }
    }

    /// The metric a request names, by variant name or by column name.
    pub open spec fn parse_spec(text: Seq<char>) -> Option<Paint> {
        if text == "PValue"@ || text == "p_value"@ {
            Some(Paint::PValue)
        } else if text == "Log2FoldChange"@ || text == "log2_fold_change"@ {
            Some(Paint::Log2FoldChange)
        } else if text == "ZStatistic"@ || text == "statistic"@ {
            Some(Paint::ZStatistic)
        } else {
            None
        }
    }

    /// Resolves the metric a request names; `None` for any other text.
    pub fn parse(text: &str) -> (paint: Option<Paint>)
        ensures
            paint == Paint::parse_spec(text@),
    {
        if same_str(text, "PValue") || same_str(text, "p_value") {
            Some(Paint::PValue)
        } else if same_str(text, "Log2FoldChange") || same_str(text, "log2_fold_change") {
            Some(Paint::Log2FoldChange)
        } else if same_str(text, "ZStatistic") || same_str(text, "statistic") {
            Some(Paint::ZStatistic)
        } else {
            None
        }
    }

    /// The value of this metric in a row.
    pub open spec fn value_of_spec(self, row: Variant) -> i64 {
        match self {
            Paint::PValue => row.p_value,
            Paint::Log2FoldChange => row.log2_fold_change,
            Paint::ZStatistic => row.statistic,
        }
    }

    /// The value of this metric in a row.
    pub fn value_of(&self, row: &Variant) -> (value: i64)
        ensures
            value == self.value_of_spec(*row),
    {
        match self {
            Paint::PValue => row.p_value,
            Paint::Log2FoldChange => row.log2_fold_change,
            Paint::ZStatistic => row.statistic,
        }
    }
}

impl PlotType {
    /// The kind of plot a request names, in lower case or by the name of
    /// the variant.
    pub open spec fn parse_spec(text: Seq<char>) -> Option<PlotType> {
        if text == "heatmap"@ || text == "Heatmap"@ {
            Some(PlotType::Heatmap)
        } else if text == "scatter"@ || text == "Scatter"@ {
            Some(PlotType::Scatter)
        } else {
            None
        }
    }

    /// Resolves the kind of plot a request names; `None` for any other
    /// text.
    pub fn parse(text: &str) -> (plot: Option<PlotType>)
        ensures
            plot == PlotType::parse_spec(text@),
    {
        if same_str(text, "heatmap") || same_str(text, "Heatmap") {
            Some(PlotType::Heatmap)
        } else if same_str(text, "scatter") || same_str(text, "Scatter") {
            Some(PlotType::Scatter)
        } else {
            None
        }
    }
}

impl PositionFilter {
    /// The name of this policy as requests spell it.
    pub open spec fn name(self) -> Seq<char> {
        match self {
            PositionFilter::MostSignificantPValue => "MostSignificantPValue"@,
            PositionFilter::LargestLog2FoldChange => "LargestLog2FoldChange"@,
            PositionFilter::LargestZStatistic => "LargestZStatistic"@,
            PositionFilter::NoOrder => "NoOrder"@,
        }
    }

    /// The name of this policy as requests spell it.
    pub fn to_string(&self) -> (text: String)
        ensures
            text@ == self.name(),
    {
        match self {
            PositionFilter::MostSignificantPValue => String::from_str("MostSignificantPValue"),
            PositionFilter::LargestLog2FoldChange => String::from_str("LargestLog2FoldChange"),
            PositionFilter::LargestZStatistic => String::from_str("LargestZStatistic"),
            PositionFilter::NoOrder => String::from_str("NoOrder"),
        }
    }

    /// The policy a request names.
    pub open spec fn parse_spec(text: Seq<char>) -> Option<PositionFilter> {
        if text == "MostSignificantPValue"@ {
            Some(PositionFilter::MostSignificantPValue)
        } else if text == "LargestLog2FoldChange"@ {
            Some(PositionFilter::LargestLog2FoldChange)
        } else if text == "LargestZStatistic"@ {
            Some(PositionFilter::LargestZStatistic)
        } else if text == "NoOrder"@ {
            Some(PositionFilter::NoOrder)
        } else {
            None
        }
    }

    /// Resolves the policy a request names; `None` for any other text.
    pub fn parse(text: &str) -> (policy: Option<PositionFilter>)
        ensures
            policy == PositionFilter::parse_spec(text@),
    {
        if same_str(text, "MostSignificantPValue") {
            Some(PositionFilter::MostSignificantPValue)
        } else if same_str(text, "LargestLog2FoldChange") {
            Some(PositionFilter::LargestLog2FoldChange)
        } else if same_str(text, "LargestZStatistic") {
            Some(PositionFilter::LargestZStatistic)
        } else if same_str(text, "NoOrder") {
            Some(PositionFilter::NoOrder)
        } else {
            None
        }
    }
}

/// The place of a symbol in the alphabet, or the alphabet's length for a
/// text that is no symbol of it.
pub open spec fn aa_rank_upto(aa: Seq<char>, n: nat) -> nat
    decreases n,
{
    if n == 0 {
        21
    } else if aa_rank_upto(aa, (n - 1) as nat) < 21 {
        aa_rank_upto(aa, (n - 1) as nat)
    } else if AMINO_ACIDS[n - 1]@ == aa {
        (n - 1) as nat
    } else {
        21
    }
}

/// The place of a symbol in the alphabet: the first index that holds it, or
/// 21 where none does.
pub open spec fn aa_rank(aa: Seq<char>) -> nat {
    aa_rank_upto(aa, 21)
}

/// `aa_rank_upto` is the least matching index below `n`, or 21.
pub proof fn lemma_aa_rank_upto(aa: Seq<char>, n: nat)
    requires
        n <= 21,
    ensures
        aa_rank_upto(aa, n) < n || aa_rank_upto(aa, n) == 21,
        aa_rank_upto(aa, n) < 21 ==> AMINO_ACIDS[aa_rank_upto(aa, n) as int]@ == aa,
        forall|k: int| 0 <= k < n && k < aa_rank_upto(aa, n) ==> AMINO_ACIDS[k]@ != aa,
    decreases n,
{
    if n > 0 {
        lemma_aa_rank_upto(aa, (n - 1) as nat);
    }
}

/// The rank of a text is below 21 exactly when the alphabet holds it, and
/// then it is the first index that does.
pub proof fn lemma_aa_rank(aa: Seq<char>)
    ensures
        aa_rank(aa) <= 21,
        aa_rank(aa) < 21 <==> exists|k: int| 0 <= k < 21 && AMINO_ACIDS[k]@ == aa,
        aa_rank(aa) < 21 ==> AMINO_ACIDS[aa_rank(aa) as int]@ == aa,
        forall|k: int| 0 <= k < aa_rank(aa) ==> AMINO_ACIDS[k]@ != aa,
{
    lemma_aa_rank_upto(aa, 21);
}

/// The place of `aa` in the alphabet, 21 for a text that is no symbol.
pub fn amino_acid_rank(aa: &String) -> (rank: usize)
    ensures
        rank == aa_rank(aa@),
        rank <= 21,
{
    let mut k: usize = 0;
    while k < 21
        invariant
            k <= 21,
            aa_rank_upto(aa@, k as nat) == 21,
        decreases 21 - k,
    {
        if same_text(aa, AMINO_ACIDS[k]) {
            proof {
                lemma_rank_found(aa@, k as nat);
            }
            return k;
        }
        k = k + 1;
    }
    k
}

/// Once a prefix of the alphabet holds the text, longer prefixes give the
/// same rank.
proof fn lemma_rank_stays(aa: Seq<char>, k: nat, n: nat)
    requires
        k < n <= 21,
        aa_rank_upto(aa, k + 1) == k,
    ensures
        aa_rank_upto(aa, n) == k,
    decreases n,
{
    if n > k + 1 {
        lemma_rank_stays(aa, k, (n - 1) as nat);
    }
}

/// A match at `k` with none before it fixes the rank at `k`.
proof fn lemma_rank_found(aa: Seq<char>, k: nat)
    requires
        k < 21,
        aa_rank_upto(aa, k) == 21,
        AMINO_ACIDS[k as int]@ == aa,
    ensures
        aa_rank(aa) == k,
{
    assert(aa_rank_upto(aa, k + 1) == k);
    lemma_rank_stays(aa, k, 21);
}

/// Whether a row meets what the data model asks of every stored row: a
/// position from 1 up, a symbol of the alphabet, a standard error that is
/// not negative and a p-value above 0 and at most 1.
pub open spec fn row_valid(row: Variant) -> bool {
    &&& row.pos >= 1
    &&& aa_rank(row.aa@) < 21
    &&& row.log2_std_error >= 0
    &&& 0 < row.p_value <= METRIC_SCALE
}

/// Decides [`row_valid`].
pub fn is_row_valid(row: &Variant) -> (valid: bool)
    ensures
        valid == row_valid(*row),
{
    row.pos >= 1 && amino_acid_rank(&row.aa) < 21 && row.log2_std_error >= 0 && 0 < row.p_value
        && row.p_value <= METRIC_SCALE
}

} // verus!
