//! The grid of a page: one cell for every position of the window and every
//! symbol of the alphabet, coloured where a row matches, with the mark at
//! which the next page is to be fetched.

use vstd::prelude::*;
use crate::color::{color_of, hex_color_text, Normalizer};
use crate::model::{same_text, Paint, PosColor, TableParams, Variant, VariantColor, AMINO_ACIDS};
use crate::ranking::PageWindow;

verus! {

/// How many positions before the last of a window the next page is asked
/// for, unless the caller chooses otherwise.
pub const PREFETCH_OFFSET: i64 = 15;

/// One cell of the grid. A cell without a row has no value, colour or id.
#[derive(Debug)]
pub struct DisplayCell {
    pub position: i64,
    pub amino_acid: String,
    pub value: Option<i64>,
    pub color: Option<String>,
    pub variant_id: Option<i32>,
}

impl DisplayCell {
    /// Whether the cell shows a row that can be looked up: it has a value,
    /// a colour and an id.
    pub open spec fn filled(self) -> bool {
        self.value is Some && self.color is Some && self.variant_id is Some
    }

    /// Whether the cell is drawn filled: a cell that lacks value, colour
    /// or id is drawn bare.
    pub fn is_filled(&self) -> (b: bool)
        ensures
            b == self.filled(),
    {
        self.value.is_some() && self.color.is_some() && self.variant_id.is_some()
    }
}

/// The mark that asks for the next page: the index of the cell it follows
/// and the request to send.
#[derive(Debug)]
pub struct LazyLoad {
    pub after_cell: usize,
    pub next: TableParams,
}

/// The cells of a page, position by position and symbol by symbol.
#[derive(Debug)]
pub struct Grid {
    pub cells: Vec<DisplayCell>,
    pub lazy_load: Option<LazyLoad>,
}

/// The index of the first of the first `n` rows at `pos` with symbol `aa`.
pub open spec fn match_upto(rows: Seq<Variant>, pos: int, aa: Seq<char>, n: nat) -> Option<int>
    decreases n,
{
    if n == 0 {
        None
    } else {
        match match_upto(rows, pos, aa, (n - 1) as nat) {
            Some(i) => Some(i),
            None => if rows[n - 1].pos == pos && rows[n - 1].aa@ == aa {
                Some(n - 1)
            } else {
                None
            },
        }
    }
}

/// The index of the first row at `pos` with symbol `aa`.
pub open spec fn first_match(rows: Seq<Variant>, pos: int, aa: Seq<char>) -> Option<int> {
    match_upto(rows, pos, aa, rows.len())
}

/// `match_upto` is the least matching index below `n`.
pub proof fn lemma_match_upto(rows: Seq<Variant>, pos: int, aa: Seq<char>, n: nat)
    requires
        n <= rows.len(),
    ensures
        match_upto(rows, pos, aa, n) matches Some(i) ==> 0 <= i < n && rows[i].pos == pos
            && rows[i].aa@ == aa && match_upto(rows, pos, aa, i as nat) is None,
        match_upto(rows, pos, aa, n) is None ==> forall|j: int|
            0 <= j < n ==> !((#[trigger] rows[j]).pos == pos && rows[j].aa@ == aa),
    decreases n,
{
    if n > 0 {
        lemma_match_upto(rows, pos, aa, (n - 1) as nat);
    }
}

/// A match at `i` with none before it is what the search finds, however
/// far it looks.
proof fn lemma_match_found(rows: Seq<Variant>, pos: int, aa: Seq<char>, i: nat, n: nat)
    requires
        i < n <= rows.len(),
        match_upto(rows, pos, aa, i) is None,
        rows[i as int].pos == pos,
        rows[i as int].aa@ == aa,
    ensures
        match_upto(rows, pos, aa, n) == Some(i as int),
    decreases n,
{
    if n > i + 1 {
        lemma_match_found(rows, pos, aa, i, (n - 1) as nat);
    }
}

/// The place of the cell of the `p`-th position and the `k`-th symbol.
pub open spec fn cell_index(p: int, k: int) -> int {
    p * 21 + k
}

/// Whether `cell` is the cell of position `pos` and the `k`-th symbol:
/// filled from the first row that matches both, with the value of the
/// painted metric, its colour on the scale and the row's id; bare where
/// no row matches.
pub open spec fn is_cell(
    cell: DisplayCell,
    rows: Seq<Variant>,
    pos: int,
    k: int,
    max_abs: int,
    paint: Paint,
) -> bool {
    &&& cell.position == pos
    &&& cell.amino_acid@ == AMINO_ACIDS[k]@
    &&& match first_match(rows, pos, AMINO_ACIDS[k]@) {
        Some(i) => {
            &&& cell.value == Some(paint.value_of_spec(rows[i]))
            &&& cell.color matches Some(c) && c@ == hex_color_text(
                color_of(max_abs, paint.value_of_spec(rows[i]) as int),
            )
            &&& cell.variant_id == rows[i].id
        },
        None => cell.value is None && cell.color is None && cell.variant_id is None,
    }
}

/// The request for the page after the one `params` asks for; a request
/// without a page asks for the first.
pub open spec fn next_request(params: TableParams) -> TableParams {
    TableParams {
        protein: params.protein,
        condition: params.condition,
        position_filter: params.position_filter,
        paint: params.paint,
        operation: params.operation,
        threshold: params.threshold,
        page: Some(
            (match params.page {
                Some(p) => p + 1,
                None => 2,
            }) as i32,
        ),
        plot: params.plot,
    }
}

/// The page a request asks for.
pub open spec fn requested_page(params: TableParams) -> int {
    match params.page {
        Some(p) => p as int,
        None => 1,
    }
}

/// Where the mark for the next page goes: after the cell of the last
/// symbol at the position `offset` before the last position of the
/// window, an offset of 0 being the last position itself; where the window
/// has that position and a next page can be numbered.
pub open spec fn lazy_load_cell(window: PageWindow, offset: int, params: TableParams) -> Option<
    int,
> {
    if window.start <= window.end - offset <= window.end && requested_page(params) < i32::MAX {
        Some(cell_index(window.end - offset - window.start, 20))
    } else {
        None
    }
}

/// Whether `grid` is the grid of a window over `rows`: it has a cell for
/// every position of the window and every symbol of the alphabet,
/// position by position and symbol by symbol, each filled or bare as the
/// rows have it; and it bears the mark for the next page where that has a
/// place.
pub open spec fn is_grid(
    grid: Grid,
    rows: Seq<Variant>,
    window: PageWindow,
    max_abs: int,
    paint: Paint,
    params: TableParams,
    offset: int,
) -> bool {
    &&& grid.cells@.len() == window.span() * 21
    &&& forall|p: int, k: int|
        0 <= p < window.span() && 0 <= k < 21 ==> is_cell(
            #[trigger] grid.cells@[cell_index(p, k)],
            rows,
            window.start + p,
            k,
            max_abs,
            paint,
        )
    &&& match lazy_load_cell(window, offset, params) {
        Some(c) => grid.lazy_load matches Some(mark) && mark.after_cell == c && mark.next
            == next_request(params),
        None => grid.lazy_load is None,
    }
}

/// The first row at `pos` with symbol `aa`.
pub fn find_match(rows: &Vec<Variant>, pos: i64, aa: &str) -> (found: Option<usize>)
    ensures
        found matches Some(i) ==> i < rows.len() && first_match(rows@, pos as int, aa@) == Some(
            i as int,
        ),
        found is None ==> first_match(rows@, pos as int, aa@) is None,
{
    let mut i: usize = 0;
    while i < rows.len()
        invariant
            i <= rows.len(),
            match_upto(rows@, pos as int, aa@, i as nat) is None,
        decreases rows.len() - i,
    {
        if rows[i].pos as i64 == pos && same_text(&rows[i].aa, aa) {
            proof {
                lemma_match_found(rows@, pos as int, aa@, i as nat, rows@.len());
            }
            return Some(i);
        }
        i = i + 1;
    }
    None
}

/// The cell of position `pos` and the `k`-th symbol.
pub fn make_cell(rows: &Vec<Variant>, pos: i64, k: usize, normalizer: &Normalizer, paint: Paint)
    -> (cell: DisplayCell)
    requires
        k < 21,
    ensures
        is_cell(cell, rows@, pos as int, k as int, normalizer.max_abs as int, paint),
{
    let symbol: &'static str = AMINO_ACIDS[k];
    match find_match(rows, pos, symbol) {
        Some(i) => {
            let value: i64 = paint.value_of(&rows[i]);
            DisplayCell {
                position: pos,
                amino_acid: String::from_str(symbol),
                value: Some(value),
                color: Some(normalizer.get_color_hex(value)),
                variant_id: rows[i].id,
            }
        },
        None => DisplayCell {
            position: pos,
            amino_acid: String::from_str(symbol),
            value: None,
            color: None,
            variant_id: None,
        },
    }
}

/// Lays out the grid of a window over `rows`: for every position of the
/// window and every symbol a cell, and the mark for the next page `offset`
/// positions before the last.
pub fn render(
    rows: &Vec<Variant>,
    window: PageWindow,
    normalizer: &Normalizer,
    paint: Paint,
    params: &TableParams,
    offset: i64,
) -> (grid: Grid)
    requires
        window.wf(),
    ensures
        is_grid(grid, rows@, window, normalizer.max_abs as int, paint, *params, offset as int),
{
    let mut cells: Vec<DisplayCell> = Vec::new();
    let mut pos: i128 = window.start as i128;
    while pos <= window.end as i128
        invariant
            window.wf(),
            window.start <= pos,
            pos <= window.end + 1 || window.end < window.start,
            window.end < window.start ==> pos == window.start,
            cells@.len() == (pos - window.start) * 21,
            forall|p: int, k: int|
                0 <= p < pos - window.start && 0 <= k < 21 ==> is_cell(
                    #[trigger] cells@[cell_index(p, k)],
                    rows@,
                    window.start + p,
                    k,
                    normalizer.max_abs as int,
                    paint,
                ),
        decreases window.end + 1 - pos,
    {
        let mut k: usize = 0;
        while k < 21
            invariant
                window.wf(),
                window.start <= pos <= window.end,
                k <= 21,
                cells@.len() == (pos - window.start) * 21 + k,
                forall|p: int, j: int|
                    0 <= p < pos - window.start && 0 <= j < 21 ==> is_cell(
                        #[trigger] cells@[cell_index(p, j)],
                        rows@,
                        window.start + p,
                        j,
                        normalizer.max_abs as int,
                        paint,
                    ),
                forall|j: int|
                    0 <= j < k ==> is_cell(
                        #[trigger] cells@[cell_index(pos - window.start, j)],
                        rows@,
                        pos as int,
                        j,
                        normalizer.max_abs as int,
                        paint,
                    ),
            decreases 21 - k,
        {
            let cell: DisplayCell = make_cell(rows, pos as i64, k, normalizer, paint);
            cells.push(cell);
            k = k + 1;
        }
        pos = pos + 1;
    }
    let page: i32 = match params.page {
        Some(p) => p,
        None => 1,
    };
    let at: i128 = window.end as i128 - offset as i128;
    let lazy_load: Option<LazyLoad> = if window.start as i128 <= at && at <= window.end as i128
        && page < i32::MAX {
        let next: TableParams = TableParams {
            protein: params.protein.clone(),
            condition: params.condition.clone(),
            position_filter: params.position_filter,
            paint: params.paint,
            operation: params.operation,
            threshold: params.threshold,
            page: Some(page + 1),
            plot: params.plot,
        };
        Some(LazyLoad { after_cell: ((at - window.start as i128) * 21 + 20) as usize, next })
    } else {
        None
    };
    Grid { cells, lazy_load }
}

/// Whether `entry` is the colour entry of `row`: its position with the
/// colour of its painted metric.
pub open spec fn is_pos_color(entry: PosColor, row: Variant, max_abs: int, paint: Paint) -> bool {
    entry.pos == row.pos && entry.color@ == hex_color_text(
        color_of(max_abs, paint.value_of_spec(row) as int),
    )
}

/// Whether `out` holds the colour entry of every row, in the order of the
/// rows.
pub open spec fn are_pos_colors(out: Seq<PosColor>, rows: Seq<Variant>, max_abs: int, paint: Paint)
    -> bool {
    &&& out.len() == rows.len()
    &&& forall|i: int|
        0 <= i < rows.len() ==> is_pos_color(#[trigger] out[i], rows[i], max_abs, paint)
}

/// The colour of every row of a page by its position, in the order of the
/// rows.
pub fn position_colors(rows: &Vec<Variant>, normalizer: &Normalizer, paint: Paint) -> (out: Vec<
    PosColor,
>)
    ensures
        are_pos_colors(out@, rows@, normalizer.max_abs as int, paint),
{
    let mut out: Vec<PosColor> = Vec::new();
    let mut i: usize = 0;
    while i < rows.len()
        invariant
            i <= rows.len(),
            out@.len() == i,
            forall|j: int|
                0 <= j < i ==> is_pos_color(
                    #[trigger] out@[j],
                    rows@[j],
                    normalizer.max_abs as int,
                    paint,
                ),
        decreases rows.len() - i,
    {
        let row: &Variant = &rows[i];
        out.push(PosColor { pos: row.pos, color: normalizer.get_color_hex(paint.value_of(row)) });
        i = i + 1;
    }
    out
}

/// Whether `point` is the scatter point of `row`: its id, position,
/// symbol and measurements, with the colour of its painted metric.
pub open spec fn is_point(point: VariantColor, row: Variant, max_abs: int, paint: Paint) -> bool {
    &&& row.id == Some(point.id)
    &&& point.pos == row.pos
    &&& point.aa@ == row.aa@
    &&& point.log2_fold_change == row.log2_fold_change
    &&& point.log2_std_error == row.log2_std_error
    &&& point.statistic == row.statistic
    &&& point.p_value == row.p_value
    &&& point.color@ == hex_color_text(color_of(max_abs, paint.value_of_spec(row) as int))
}

/// The rows that bear an id, in their order.
pub open spec fn identified(rows: Seq<Variant>) -> Seq<Variant> {
    rows.filter(|row: Variant| row.id is Some)
}

/// Whether `out` holds the scatter point of every row that bears an id, in
/// the order of the rows.
pub open spec fn are_points(out: Seq<VariantColor>, rows: Seq<Variant>, max_abs: int, paint: Paint)
    -> bool {
    &&& out.len() == identified(rows).len()
    &&& forall|i: int|
        0 <= i < out.len() ==> is_point(#[trigger] out[i], identified(rows)[i], max_abs, paint)
}

/// The points of the scatter plot: one for every row that bears an id, in
/// the order of the rows.
pub fn scatter_points(rows: &Vec<Variant>, normalizer: &Normalizer, paint: Paint) -> (out: Vec<
    VariantColor,
>)
    ensures
        are_points(out@, rows@, normalizer.max_abs as int, paint),
{
    let mut out: Vec<VariantColor> = Vec::new();
    let mut i: usize = 0;
    let ghost with_id = |row: Variant| row.id is Some;
    proof {
        assert(rows@.take(0) =~= Seq::<Variant>::empty());
        assert(rows@.take(0).filter(with_id) =~= Seq::<Variant>::empty()) by {
            reveal(Seq::filter);
        }
    }
    while i < rows.len()
        invariant
            i <= rows.len(),
            with_id == (|row: Variant| row.id is Some),
            out@.len() == rows@.take(i as int).filter(with_id).len(),
            forall|j: int|
                0 <= j < out@.len() ==> is_point(
                    #[trigger] out@[j],
                    rows@.take(i as int).filter(with_id)[j],
                    normalizer.max_abs as int,
                    paint,
                ),
        decreases rows.len() - i,
    {
        let row: &Variant = &rows[i];
        proof {
            assert(rows@.take(i + 1) =~= rows@.take(i as int).push(rows@[i as int]));
            rows@.take(i as int).lemma_filter_push(rows@[i as int], with_id);
        }
        match row.id {
            Some(id) => {
                out.push(
                    VariantColor {
                        id,
                        pos: row.pos,
                        aa: row.aa.clone(),
                        log2_fold_change: row.log2_fold_change,
                        log2_std_error: row.log2_std_error,
                        statistic: row.statistic,
                        p_value: row.p_value,
                        color: normalizer.get_color_hex(paint.value_of(row)),
                    },
                );
            },
            None => {},
        }
        i = i + 1;
    }
    proof {
        assert(rows@.take(rows@.len() as int) =~= rows@);
    }
    out
}

} // verus!
