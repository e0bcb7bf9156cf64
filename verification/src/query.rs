//! Queries over rows: what the viewer asks of the rows of a protein under
//! a condition, wherever the rows are kept.

use vstd::prelude::*;
use crate::model::{texts, Paint, PositionFilter, Variant, PAGE_SIZE};
use crate::ranking::{
    in_scope, lemma_filter_same, lemma_ordered_page, lemma_ordered_page_same_rows,
    lemma_page_past_end, ordered_page, ordered_rows, page_end, page_rows, page_start, page_window,
    ranked_upto, select_page, selected, winner_upto, PageWindow,
};

verus! {

/// Why a store operation failed.
#[derive(Clone, Copy, Debug, PartialEq, Eq, Structural)]
pub enum StoreError {
    /// No such protein, no such row, or no row to aggregate over.
    NotFound,
    /// A batch could not be stored; nothing of it was.
    Storage,
}

/// The least and greatest value of a metric, and the greatest magnitude.
#[derive(Clone, Copy, Debug, PartialEq, Eq, Structural)]
pub struct MetricRange {
    pub min: i64,
    pub max: i64,
    pub max_abs: u64,
}

/// The magnitude of a value.
pub open spec fn magnitude(value: int) -> int {
    if value < 0 {
        -value
    } else {
        value
    }
}

/// The magnitude of a value.
pub fn abs_value(value: i64) -> (m: u64)
    ensures
        m == magnitude(value as int),
{
    if value < 0 {
        (-(value as i128)) as u64
    } else {
        value as u64
    }
}

/// The greatest position among the first `n` rows that are in scope.
pub open spec fn max_position_upto(
    rows: Seq<Variant>,
    protein: Seq<char>,
    condition: Seq<char>,
    n: nat,
) -> Option<i32>
    decreases n,
{
    if n == 0 {
        None
    } else {
        let earlier = max_position_upto(rows, protein, condition, (n - 1) as nat);
        if in_scope(rows[n - 1], protein, condition) {
            match earlier {
                Some(m) => if rows[n - 1].pos > m {
                    Some(rows[n - 1].pos)
                } else {
                    earlier
                },
                None => Some(rows[n - 1].pos),
            }
        } else {
            earlier
        }
    }
}

/// The least position among the first `n` rows that are in scope.
pub open spec fn min_position_upto(
    rows: Seq<Variant>,
    protein: Seq<char>,
    condition: Seq<char>,
    n: nat,
) -> Option<i32>
    decreases n,
{
    if n == 0 {
        None
    } else {
        let earlier = min_position_upto(rows, protein, condition, (n - 1) as nat);
        if in_scope(rows[n - 1], protein, condition) {
            match earlier {
                Some(m) => if rows[n - 1].pos < m {
                    Some(rows[n - 1].pos)
                } else {
                    earlier
                },
                None => Some(rows[n - 1].pos),
            }
        } else {
            earlier
        }
    }
}

/// The least position among the rows in scope; `None` where no row is.
pub open spec fn min_position(rows: Seq<Variant>, protein: Seq<char>, condition: Seq<char>)
    -> Option<i32> {
    min_position_upto(rows, protein, condition, rows.len())
}

/// The greatest position among the rows in scope; `None` where no row is.
pub open spec fn max_position(rows: Seq<Variant>, protein: Seq<char>, condition: Seq<char>)
    -> Option<i32> {
    max_position_upto(rows, protein, condition, rows.len())
}

/// The rows in scope, all of them, by position and symbol, rows of one
/// position and symbol in their order: the unranked page over the window
/// from the least to the greatest position.
pub open spec fn all_rows(rows: Seq<Variant>, protein: Seq<char>, condition: Seq<char>) -> Seq<
    Variant,
> {
    match (min_position(rows, protein, condition), max_position(rows, protein, condition)) {
        (Some(least), Some(greatest)) => ordered_page(
            rows,
            protein,
            condition,
            Paint::PValue,
            None,
            PageWindow { start: least as i64, end: greatest as i64 },
        ),
        _ => Seq::empty(),
    }
}

/// There is a least position exactly where there is a greatest.
pub proof fn lemma_extremes_go_together(
    rows: Seq<Variant>,
    protein: Seq<char>,
    condition: Seq<char>,
    n: nat,
)
    ensures
        min_position_upto(rows, protein, condition, n) is Some <==> max_position_upto(
            rows,
            protein,
            condition,
            n,
        ) is Some,
    decreases n,
{
    if n > 0 {
        lemma_extremes_go_together(rows, protein, condition, (n - 1) as nat);
    }
}

/// Whether any row is in scope.
pub open spec fn any_in_scope(rows: Seq<Variant>, protein: Seq<char>, condition: Seq<char>)
    -> bool {
    exists|i: int| 0 <= i < rows.len() && in_scope(#[trigger] rows[i], protein, condition)
}

/// Whether `range` is the range of `paint` over the rows in scope: both
/// ends are taken by some row, every row lies between them, and the
/// greatest magnitude is that of the farther end.
pub open spec fn is_range_of(
    range: MetricRange,
    rows: Seq<Variant>,
    protein: Seq<char>,
    condition: Seq<char>,
    paint: Paint,
) -> bool {
    &&& exists|i: int|
        0 <= i < rows.len() && in_scope(#[trigger] rows[i], protein, condition)
            && paint.value_of_spec(rows[i]) == range.min
    &&& exists|i: int|
        0 <= i < rows.len() && in_scope(#[trigger] rows[i], protein, condition)
            && paint.value_of_spec(rows[i]) == range.max
    &&& forall|i: int|
        0 <= i < rows.len() && in_scope(#[trigger] rows[i], protein, condition) ==> range.min
            <= paint.value_of_spec(rows[i]) <= range.max
    &&& range.max_abs == if magnitude(range.min as int) > magnitude(range.max as int) {
        magnitude(range.min as int)
    } else {
        magnitude(range.max as int)
    }
}

/// The conditions of the first `n` rows of a protein, each once, in the
/// order in which they first occur.
pub open spec fn conditions_upto(rows: Seq<Variant>, protein: Seq<char>, n: nat) -> Seq<
    Seq<char>,
>
    decreases n,
{
    if n == 0 {
        Seq::empty()
    } else {
        let earlier = conditions_upto(rows, protein, (n - 1) as nat);
        if rows[n - 1].protein@ == protein && !earlier.contains(rows[n - 1].condition@) {
            earlier.push(rows[n - 1].condition@)
        } else {
            earlier
        }
    }
}

/// The conditions under which a protein has rows, each once, in the order
/// in which they first occur.
pub open spec fn conditions_of(rows: Seq<Variant>, protein: Seq<char>) -> Seq<Seq<char>> {
    conditions_upto(rows, protein, rows.len())
}

/// The conditions under which `protein` has rows, each once, in the
/// order in which they first occur.
pub fn distinct_conditions(rows: &Vec<Variant>, protein: &str) -> (conditions: Vec<String>)
    ensures
        texts(conditions@) == conditions_of(rows@, protein@),
{
    let wanted: String = String::from_str(protein);
    let mut conditions: Vec<String> = Vec::new();
    let mut i: usize = 0;
    while i < rows.len()
        invariant
            i <= rows.len(),
            wanted@ == protein@,
            texts(conditions@) == conditions_upto(rows@, protein@, i as nat),
        decreases rows.len() - i,
    {
        let row: &Variant = &rows[i];
        if row.protein == wanted {
            let known: bool = holds_text(&conditions, &row.condition);
            if !known {
                let ghost before = conditions@;
                conditions.push(row.condition.clone());
                proof {
                    assert(texts(conditions@) =~= texts(before).push(row.condition@));
                }
            }
        }
        i = i + 1;
    }
    conditions
}

/// The greatest position at which the protein has a row under the
/// condition.
pub fn greatest_position(rows: &Vec<Variant>, protein: &str, condition: &str) -> (greatest: Option<i32>)
    ensures
        greatest == max_position(rows@, protein@, condition@),
{
    let protein_name: String = String::from_str(protein);
    let condition_name: String = String::from_str(condition);
    let mut greatest: Option<i32> = None;
    let mut i: usize = 0;
    while i < rows.len()
        invariant
            i <= rows.len(),
            protein_name@ == protein@,
            condition_name@ == condition@,
            greatest == max_position_upto(rows@, protein@, condition@, i as nat),
        decreases rows.len() - i,
    {
        let row: &Variant = &rows[i];
        if row.protein == protein_name && row.condition == condition_name {
            greatest = match greatest {
                Some(m) => if row.pos > m {
                    Some(row.pos)
                } else {
                    greatest
                },
                None => Some(row.pos),
            };
        }
        i = i + 1;
    }
    greatest
}

/// The least position at which the protein has a row under the
/// condition.
pub fn least_position(rows: &Vec<Variant>, protein: &str, condition: &str) -> (least: Option<i32>)
    ensures
        least == min_position(rows@, protein@, condition@),
{
    let protein_name: String = String::from_str(protein);
    let condition_name: String = String::from_str(condition);
    let mut least: Option<i32> = None;
    let mut i: usize = 0;
    while i < rows.len()
        invariant
            i <= rows.len(),
            protein_name@ == protein@,
            condition_name@ == condition@,
            least == min_position_upto(rows@, protein@, condition@, i as nat),
        decreases rows.len() - i,
    {
        let row: &Variant = &rows[i];
        if row.protein == protein_name && row.condition == condition_name {
            least = match least {
                Some(m) => if row.pos < m {
                    Some(row.pos)
                } else {
                    least
                },
                None => Some(row.pos),
            };
        }
        i = i + 1;
    }
    least
}

/// The rows of a protein under a condition, all of them, by position
/// and symbol.
pub fn fetch_all(rows: &Vec<Variant>, protein: &str, condition: &str) -> (out: Vec<Variant>)
    ensures
        out@ == all_rows(rows@, protein@, condition@),
{
    match (least_position(rows, protein, condition), greatest_position(rows, protein, condition)) {
        (Some(least), Some(greatest)) => {
            let window: PageWindow = PageWindow { start: least as i64, end: greatest as i64 };
            ordered_rows(
                rows,
                protein,
                condition,
                Paint::PValue,
                None,
                window,
            )
        },
        _ => {
            proof {
                lemma_extremes_go_together(rows@, protein@, condition@, rows@.len());
            }
            Vec::new()
        },
    }
}

/// The range of a metric over the rows of a protein under a condition.
/// Where there is no such row there is no range, and none is made up.
pub fn range_and_extremum(rows: &Vec<Variant>, protein: &str, condition: &str, paint: Paint) -> (range:
    Result<MetricRange, StoreError>)
    ensures
        match range {
            Ok(r) => is_range_of(r, rows@, protein@, condition@, paint),
            Err(e) => e == StoreError::NotFound && !any_in_scope(
                rows@,
                protein@,
                condition@,
            ),
        },
{
    let protein_name: String = String::from_str(protein);
    let condition_name: String = String::from_str(condition);
    let mut ends: Option<(i64, i64)> = None;
    let mut i: usize = 0;
    while i < rows.len()
        invariant
            i <= rows.len(),
            protein_name@ == protein@,
            condition_name@ == condition@,
            ends is None ==> forall|j: int|
                0 <= j < i ==> !in_scope(#[trigger] rows@[j], protein@, condition@),
            ends matches Some((low, high)) ==> {
                &&& exists|j: int|
                    0 <= j < i && in_scope(#[trigger] rows@[j], protein@, condition@)
                        && paint.value_of_spec(rows@[j]) == low
                &&& exists|j: int|
                    0 <= j < i && in_scope(#[trigger] rows@[j], protein@, condition@)
                        && paint.value_of_spec(rows@[j]) == high
                &&& forall|j: int|
                    0 <= j < i && in_scope(#[trigger] rows@[j], protein@, condition@)
                        ==> low <= paint.value_of_spec(rows@[j]) <= high
            },
        decreases rows.len() - i,
    {
        let row: &Variant = &rows[i];
        if row.protein == protein_name && row.condition == condition_name {
            let value: i64 = paint.value_of(row);
            ends = match ends {
                Some((low, high)) => Some(
                    (
                        if value < low {
                            value
                        } else {
                            low
                        },
                        if value > high {
                            value
                        } else {
                            high
                        },
                    ),
                ),
                None => Some((value, value)),
            };
        }
        i = i + 1;
    }
    match ends {
        Some((low, high)) => {
            let low_abs: u64 = abs_value(low);
            let high_abs: u64 = abs_value(high);
            let max_abs: u64 = if low_abs > high_abs {
                low_abs
            } else {
                high_abs
            };
            Ok(MetricRange { min: low, max: high, max_abs })
        },
        None => Err(StoreError::NotFound),
    }
}

/// The rows of page `page` of a protein under a condition. The window
/// is held back at the greatest position that has a row; where the
/// protein has no row under the condition the window stays nominal and
/// the page is empty.
pub fn fetch_page(
    rows: &Vec<Variant>,
    protein: &str,
    condition: &str,
    page: i32,
    policy: PositionFilter,
    paint: Paint,
    threshold: Option<i64>,
) -> (out: Vec<Variant>)
    ensures
        out@ == page_rows(
            rows@,
            protein@,
            condition@,
            policy,
            paint,
            threshold,
            window_of(rows@, protein@, condition@, page as int),
        ),
{
    let window: PageWindow = scope_window(rows, protein, condition, page);
    select_page(rows, protein, condition, policy, paint, threshold, window)
}

/// The window of page `page` of a protein under a condition.
pub open spec fn window_of(rows: Seq<Variant>, protein: Seq<char>, condition: Seq<char>, page: int)
    -> PageWindow {
    PageWindow {
        start: page_start(page) as i64,
        end: page_end(page, max_position(rows, protein, condition)) as i64,
    }
}

/// The window of page `page` of a protein under a condition.
pub fn scope_window(rows: &Vec<Variant>, protein: &str, condition: &str, page: i32) -> (window: PageWindow)
    ensures
        window == window_of(rows@, protein@, condition@, page as int),
{
    let greatest: Option<i32> = greatest_position(rows, protein, condition);
    page_window(page, greatest)
}

/// Whether a list holds a text.
pub fn holds_text(list: &Vec<String>, text: &String) -> (found: bool)
    ensures
        found == texts(list@).contains(text@),
{
    let mut k: usize = 0;
    while k < list.len()
        invariant
            k <= list.len(),
            forall|j: int| 0 <= j < k ==> list@[j]@ != text@,
        decreases list.len() - k,
    {
        if list[k] == *text {
            proof {
                assert(texts(list@)[k as int] == text@);
            }
            return true;
        }
        k = k + 1;
    }
    proof {
        assert forall|j: int| 0 <= j < texts(list@).len() implies texts(list@)[j] != text@ by {
            assert(texts(list@)[j] == list@[j]@);
        }
    }
    false
}

/// The greatest position is the position of a row in scope, and no row in
/// scope lies past it; there is none exactly where no row is in scope.
pub proof fn lemma_max_position_upto(
    rows: Seq<Variant>,
    protein: Seq<char>,
    condition: Seq<char>,
    n: nat,
)
    requires
        n <= rows.len(),
    ensures
        match max_position_upto(rows, protein, condition, n) {
            Some(m) => {
                &&& exists|i: int|
                    0 <= i < n && in_scope(#[trigger] rows[i], protein, condition) && rows[i].pos
                        == m
                &&& forall|i: int|
                    0 <= i < n && in_scope(#[trigger] rows[i], protein, condition) ==> rows[i].pos
                        <= m
            },
            None => forall|i: int| 0 <= i < n ==> !in_scope(#[trigger] rows[i], protein, condition),
        },
    decreases n,
{
    if n > 0 {
        lemma_max_position_upto(rows, protein, condition, (n - 1) as nat);
        let earlier = max_position_upto(rows, protein, condition, (n - 1) as nat);
        if in_scope(rows[n - 1], protein, condition) {
            match earlier {
                Some(m) => {
                    let i = choose|i: int|
                        0 <= i < n - 1 && in_scope(#[trigger] rows[i], protein, condition)
                            && rows[i].pos == m;
                    assert(in_scope(rows[i], protein, condition));
                },
                None => {},
            }
        } else {
            match earlier {
                Some(m) => {
                    let i = choose|i: int|
                        0 <= i < n - 1 && in_scope(#[trigger] rows[i], protein, condition)
                            && rows[i].pos == m;
                    assert(in_scope(rows[i], protein, condition));
                },
                None => {},
            }
        }
    }
}

/// Where no row is in scope, no position has a row to show.
proof fn lemma_no_winner(
    rows: Seq<Variant>,
    policy: PositionFilter,
    protein: Seq<char>,
    condition: Seq<char>,
    pos: int,
    n: nat,
)
    requires
        n <= rows.len(),
        forall|i: int| 0 <= i < rows.len() ==> !in_scope(#[trigger] rows[i], protein, condition),
    ensures
        winner_upto(rows, policy, protein, condition, pos, n) is None,
    decreases n,
{
    if n > 0 {
        lemma_no_winner(rows, policy, protein, condition, pos, (n - 1) as nat);
    }
}

/// Where no row is in scope, no position contributes to a ranked page.
proof fn lemma_no_ranked(
    rows: Seq<Variant>,
    policy: PositionFilter,
    protein: Seq<char>,
    condition: Seq<char>,
    start: int,
    count: nat,
)
    requires
        forall|i: int| 0 <= i < rows.len() ==> !in_scope(#[trigger] rows[i], protein, condition),
    ensures
        ranked_upto(rows, policy, protein, condition, start, count).len() == 0,
    decreases count,
{
    if count > 0 {
        lemma_no_ranked(rows, policy, protein, condition, start, (count - 1) as nat);
        lemma_no_winner(rows, policy, protein, condition, start + count - 1, rows.len());
    }
}

/// A page of a protein and condition without rows is empty, on whatever
/// window: the request does not fail, it finds nothing.
pub proof fn lemma_empty_scope(
    rows: Seq<Variant>,
    protein: Seq<char>,
    condition: Seq<char>,
    policy: PositionFilter,
    paint: Paint,
    threshold: Option<i64>,
    window: PageWindow,
)
    requires
        !any_in_scope(rows, protein, condition),
    ensures
        max_position(rows, protein, condition) is None,
        page_rows(rows, protein, condition, policy, paint, threshold, window).len() == 0,
{
    lemma_max_position_upto(rows, protein, condition, rows.len());
    if policy == PositionFilter::NoOrder {
        lemma_ordered_page(rows, protein, condition, paint, threshold, window);
        let page = ordered_page(
            rows,
            protein,
            condition,
            paint,
            threshold,
            window,
        );
        if page.len() > 0 {
            assert(rows.contains(page[0]));
            let i = choose|i: int| 0 <= i < rows.len() && rows[i] == page[0];
            assert(in_scope(rows[i], protein, condition));
        }
    } else {
        lemma_no_ranked(rows, policy, protein, condition, window.start as int, window.span());
    }
}

/// A page never shows a row past the greatest position, and a page that
/// starts past it shows none.
pub proof fn lemma_page_within_rows(
    rows: Seq<Variant>,
    protein: Seq<char>,
    condition: Seq<char>,
    policy: PositionFilter,
    paint: Paint,
    threshold: Option<i64>,
    page: int,
)
    requires
        i32::MIN <= page <= i32::MAX,
    ensures
        ({
            let window = PageWindow {
                start: page_start(page) as i64,
                end: page_end(page, max_position(rows, protein, condition)) as i64,
            };
            let shown = page_rows(rows, protein, condition, policy, paint, threshold, window);
            match max_position(rows, protein, condition) {
                Some(m) => window.end <= m && (page_start(page) > m ==> shown.len() == 0),
                None => shown.len() == 0,
            }
        }),
{
    let window = PageWindow {
        start: page_start(page) as i64,
        end: page_end(page, max_position(rows, protein, condition)) as i64,
    };
    lemma_max_position_upto(rows, protein, condition, rows.len());
    match max_position(rows, protein, condition) {
        Some(m) => {
            if page_start(page) > m {
                lemma_page_past_end(
                    rows,
                    protein,
                    condition,
                    policy,
                    paint,
                    threshold,
                    page,
                    m,
                );
            }
        },
        None => {
            lemma_empty_scope(rows, protein, condition, policy, paint, threshold, window);
        },
    }
}

/// Whether one of the first `n` rows belongs to the protein and bears the
/// condition.
pub open spec fn has_condition(rows: Seq<Variant>, protein: Seq<char>, n: nat, condition: Seq<char>)
    -> bool {
    exists|i: int|
        0 <= i < n && (#[trigger] rows[i]).protein@ == protein && rows[i].condition@ == condition
}

/// The conditions of a protein are the conditions of its rows, each once.
pub proof fn lemma_conditions_upto(rows: Seq<Variant>, protein: Seq<char>, n: nat)
    requires
        n <= rows.len(),
    ensures
        conditions_upto(rows, protein, n).no_duplicates(),
        forall|i: int|
            0 <= i < n && (#[trigger] rows[i]).protein@ == protein ==> conditions_upto(
                rows,
                protein,
                n,
            ).contains(rows[i].condition@),
        forall|k: int|
            0 <= k < conditions_upto(rows, protein, n).len() ==> has_condition(
                rows,
                protein,
                n,
                #[trigger] conditions_upto(rows, protein, n)[k],
            ),
    decreases n,
{
    if n > 0 {
        let earlier = conditions_upto(rows, protein, (n - 1) as nat);
        let all = conditions_upto(rows, protein, n);
        lemma_conditions_upto(rows, protein, (n - 1) as nat);
        let last = rows[n - 1];
        if last.protein@ == protein && !earlier.contains(last.condition@) {
            assert(all == earlier.push(last.condition@));
            assert(all[earlier.len() as int] == last.condition@);
            assert forall|i: int|
                0 <= i < n && (#[trigger] rows[i]).protein@ == protein implies all.contains(
                rows[i].condition@,
            ) by {
                if i < n - 1 {
                    let k = choose|k: int|
                        0 <= k < earlier.len() && earlier[k] == rows[i].condition@;
                    assert(all[k] == rows[i].condition@);
                }
            }
            assert forall|k: int| 0 <= k < all.len() implies has_condition(
                rows,
                protein,
                n,
                #[trigger] all[k],
            ) by {
                if k < earlier.len() {
                    assert(all[k] == earlier[k]);
                    assert(has_condition(rows, protein, (n - 1) as nat, earlier[k]));
                    let i = choose|i: int|
                        0 <= i < n - 1 && (#[trigger] rows[i]).protein@ == protein
                            && rows[i].condition@ == earlier[k];
                    assert(rows[i].protein@ == protein && rows[i].condition@ == all[k]);
                } else {
                    assert(rows[n - 1].protein@ == protein && rows[n - 1].condition@ == all[k]);
                }
            }
        } else {
            assert forall|k: int| 0 <= k < all.len() implies has_condition(
                rows,
                protein,
                n,
                #[trigger] all[k],
            ) by {
                assert(has_condition(rows, protein, (n - 1) as nat, earlier[k]));
                let i = choose|i: int|
                    0 <= i < n - 1 && (#[trigger] rows[i]).protein@ == protein
                        && rows[i].condition@ == earlier[k];
                assert(rows[i].protein@ == protein && rows[i].condition@ == all[k]);
            }
        }
    }
}

/// The least position is the position of a row in scope, and no row in
/// scope lies before it; there is none exactly where no row is in scope.
pub proof fn lemma_min_position_upto(
    rows: Seq<Variant>,
    protein: Seq<char>,
    condition: Seq<char>,
    n: nat,
)
    requires
        n <= rows.len(),
    ensures
        match min_position_upto(rows, protein, condition, n) {
            Some(m) => {
                &&& exists|i: int|
                    0 <= i < n && in_scope(#[trigger] rows[i], protein, condition) && rows[i].pos
                        == m
                &&& forall|i: int|
                    0 <= i < n && in_scope(#[trigger] rows[i], protein, condition) ==> rows[i].pos
                        >= m
            },
            None => forall|i: int| 0 <= i < n ==> !in_scope(#[trigger] rows[i], protein, condition),
        },
    decreases n,
{
    if n > 0 {
        lemma_min_position_upto(rows, protein, condition, (n - 1) as nat);
        let earlier = min_position_upto(rows, protein, condition, (n - 1) as nat);
        match earlier {
            Some(m) => {
                let i = choose|i: int|
                    0 <= i < n - 1 && in_scope(#[trigger] rows[i], protein, condition)
                        && rows[i].pos == m;
                assert(in_scope(rows[i], protein, condition));
            },
            None => {},
        }
    }
}

/// All rows of a scope are the rows in scope, each as often as the input
/// holds it, and nothing else.
pub proof fn lemma_all_rows(rows: Seq<Variant>, protein: Seq<char>, condition: Seq<char>)
    ensures
        all_rows(rows, protein, condition).to_multiset() == rows.filter(
            |row: Variant| in_scope(row, protein, condition),
        ).to_multiset(),
{
    let scoped = |row: Variant| in_scope(row, protein, condition);
    lemma_min_position_upto(rows, protein, condition, rows.len());
    lemma_max_position_upto(rows, protein, condition, rows.len());
    lemma_extremes_go_together(rows, protein, condition, rows.len());
    match (min_position(rows, protein, condition), max_position(rows, protein, condition)) {
        (Some(least), Some(greatest)) => {
            let window = PageWindow { start: least as i64, end: greatest as i64 };
            let kept = |row: Variant|
                selected(row, protein, condition, Paint::PValue, None, window);
            lemma_ordered_page_same_rows(rows, protein, condition, Paint::PValue, None, window);
            assert forall|i: int| 0 <= i < rows.len() implies kept(#[trigger] rows[i]) == scoped(
                rows[i],
            ) by {}
            lemma_filter_same(rows, kept, scoped);
        },
        _ => {
            assert forall|i: int| 0 <= i < rows.len() implies !scoped(#[trigger] rows[i]) by {}
            assert(rows.all(|row: Variant| !scoped(row)));
            rows.lemma_all_neg_filter_empty(scoped);
            assert(rows.filter(scoped) =~= Seq::<Variant>::empty());
        },
    }
}

/// Every row in scope is on one page and on no other: the page that
/// covers its position has it within its window, held back or not. So the
/// greatest position, too, is on its page.
pub proof fn lemma_row_on_its_page(
    rows: Seq<Variant>,
    protein: Seq<char>,
    condition: Seq<char>,
    i: int,
    other: i32,
)
    requires
        0 <= i < rows.len(),
        in_scope(rows[i], protein, condition),
    ensures
        ({
            let pos = rows[i].pos as int;
            let page = (pos - 1) / (PAGE_SIZE as int) + 1;
            &&& i32::MIN <= page <= i32::MAX
            &&& window_of(rows, protein, condition, page).holds(pos)
            &&& other != page ==> !window_of(rows, protein, condition, other as int).holds(pos)
        }),
{
    lemma_max_position_upto(rows, protein, condition, rows.len());
}

/// The window of a page is held back at the greatest position of the
/// scope and ends with it where the page covers it; a scope without rows
/// leaves the window at a page size of positions.
pub proof fn lemma_window_of(rows: Seq<Variant>, protein: Seq<char>, condition: Seq<char>, page: i32)
    ensures
        ({
            let window = window_of(rows, protein, condition, page as int);
            &&& window.wf()
            &&& window.start == page_start(page as int)
            &&& match max_position(rows, protein, condition) {
                Some(m) => window.end <= m && (page_start(page as int) <= m <= page_end(
                    page as int,
                    None,
                ) ==> window.end == m && window.holds(m as int)),
                None => window.span() == PAGE_SIZE && !any_in_scope(rows, protein, condition),
            }
        }),
{
    lemma_max_position_upto(rows, protein, condition, rows.len());
}

} // verus!
