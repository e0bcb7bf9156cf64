//! Ranking and paging: which rows of a protein and condition a page shows.
//!
//! A store may hold several rows per position and symbol. Under a ranking
//! policy each position of the page window yields at most one row, its
//! winner; without one, every row of the window is kept, in the order of
//! position and symbol.

use vstd::prelude::*;
use crate::model::{
    aa_rank, amino_acid_rank, lemma_aa_rank, Paint, PositionFilter, Variant, PAGE_SIZE,
};

verus! {

/// The positions of one page: from `start` to `end`, both included. Rows
/// are taken from these positions, and the table lays out these and no
/// others. A window whose end lies before its start has no position.
#[derive(Clone, Copy, Debug, PartialEq, Eq, Structural)]
pub struct PageWindow {
    pub start: i64,
    pub end: i64,
}

impl PageWindow {
    /// Whether `pos` is a position of the page.
    pub open spec fn holds(self, pos: int) -> bool {
        self.start <= pos <= self.end
    }

    /// The number of positions of the page.
    pub open spec fn span(self) -> nat {
        if self.end < self.start {
            0
        } else {
            (self.end - self.start + 1) as nat
        }
    }

    /// A window as paging makes it: at most a page size of positions.
    pub open spec fn wf(self) -> bool {
        self.end - self.start < PAGE_SIZE
    }
}

/// The first position of a page; pages count from 1.
pub open spec fn page_start(page: int) -> int {
    (page - 1) * (PAGE_SIZE as int) + 1
}

/// The last position of a page: the last of a page size of positions
/// from its start on, or the greatest known position where that comes
/// first. An unknown greatest position leaves the nominal end.
pub open spec fn page_end(page: int, max_position: Option<i32>) -> int {
    let nominal = page_start(page) + PAGE_SIZE - 1;
    match max_position {
        Some(m) => if nominal >= m {
            m as int
        } else {
            nominal
        },
        None => nominal,
    }
}

/// The window of page `page`, held back at `max_position` where one is known.
pub fn page_window(page: i32, max_position: Option<i32>) -> (window: PageWindow)
    ensures
        window.start == page_start(page as int),
        window.end == page_end(page as int, max_position),
{
    let start: i64 = (page as i64 - 1) * (PAGE_SIZE as i64) + 1;
    let nominal: i64 = start + PAGE_SIZE as i64 - 1;
    let end: i64 = match max_position {
        Some(m) => if nominal >= m as i64 {
            m as i64
        } else {
            nominal
        },
        None => nominal,
    };
    PageWindow { start, end }
}

/// Whether a row belongs to the protein and condition asked for.
pub open spec fn in_scope(row: Variant, protein: Seq<char>, condition: Seq<char>) -> bool {
    row.protein@ == protein && row.condition@ == condition
}

/// Whether a row is a candidate for position `pos`.
pub open spec fn contends(row: Variant, protein: Seq<char>, condition: Seq<char>, pos: int)
    -> bool {
    in_scope(row, protein, condition) && row.pos == pos
}

/// Whether `a` is strictly better than `b` under `policy`: a smaller
/// p-value, or a larger fold change or statistic. Without a policy no row is
/// better than another.
pub open spec fn outranks(policy: PositionFilter, a: Variant, b: Variant) -> bool {
    match policy {
        PositionFilter::MostSignificantPValue => a.p_value < b.p_value,
        PositionFilter::LargestLog2FoldChange => a.log2_fold_change > b.log2_fold_change,
        PositionFilter::LargestZStatistic => a.statistic > b.statistic,
        PositionFilter::NoOrder => false,
    }
}

/// The index of the best candidate for `pos` among the first `n` rows: a
/// later row replaces the best so far only where it is strictly better.
pub open spec fn winner_upto(
    rows: Seq<Variant>,
    policy: PositionFilter,
    protein: Seq<char>,
    condition: Seq<char>,
    pos: int,
    n: nat,
) -> Option<int>
    decreases n,
{
    if n == 0 {
        None
    } else {
        let earlier = winner_upto(rows, policy, protein, condition, pos, (n - 1) as nat);
        if contends(rows[n - 1], protein, condition, pos) {
            match earlier {
                Some(best) => if outranks(policy, rows[n - 1], rows[best]) {
                    Some(n - 1)
                } else {
                    earlier
                },
                None => Some(n - 1),
            }
        } else {
            earlier
        }
    }
}

/// The index of the row shown for `pos`, if any row contends for it.
pub open spec fn winner(
    rows: Seq<Variant>,
    policy: PositionFilter,
    protein: Seq<char>,
    condition: Seq<char>,
    pos: int,
) -> Option<int> {
    winner_upto(rows, policy, protein, condition, pos, rows.len())
}

/// The winners of the `count` positions from `start` on, by position.
pub open spec fn ranked_upto(
    rows: Seq<Variant>,
    policy: PositionFilter,
    protein: Seq<char>,
    condition: Seq<char>,
    start: int,
    count: nat,
) -> Seq<Variant>
    decreases count,
{
    if count == 0 {
        Seq::empty()
    } else {
        let before = ranked_upto(rows, policy, protein, condition, start, (count - 1) as nat);
        match winner(rows, policy, protein, condition, start + count - 1) {
            Some(w) => before.push(rows[w]),
            None => before,
        }
    }
}

/// The rows of a page under a ranking policy: one winner for each position
/// of the window that has a candidate, by position.
pub open spec fn ranked_page(
    rows: Seq<Variant>,
    policy: PositionFilter,
    protein: Seq<char>,
    condition: Seq<char>,
    window: PageWindow,
) -> Seq<Variant> {
    ranked_upto(rows, policy, protein, condition, window.start as int, window.span())
}

/// Whether a row passes the threshold: its metric lies strictly below it.
pub open spec fn passes(row: Variant, paint: Paint, threshold: Option<i64>) -> bool {
    match threshold {
        Some(t) => paint.value_of_spec(row) < t,
        None => true,
    }
}

/// Whether a row is kept when no ranking policy is active.
pub open spec fn selected(
    row: Variant,
    protein: Seq<char>,
    condition: Seq<char>,
    paint: Paint,
    threshold: Option<i64>,
    window: PageWindow,
) -> bool {
    in_scope(row, protein, condition) && passes(row, paint, threshold) && window.holds(
        row.pos as int,
    )
}

/// The place of a row's sort key among the keys of a window: positions
/// first, then the rank of the symbol, with 22 ranks to a position.
pub open spec fn sort_slot(row: Variant, window: PageWindow) -> int {
    (row.pos - window.start) * 22 + aa_rank(row.aa@)
}

/// The kept rows whose sort key is `slot`, in the order of `rows`.
pub open spec fn slot_rows(
    rows: Seq<Variant>,
    protein: Seq<char>,
    condition: Seq<char>,
    paint: Paint,
    threshold: Option<i64>,
    window: PageWindow,
    slot: int,
) -> Seq<Variant> {
    rows.filter(
        |row: Variant|
            selected(row, protein, condition, paint, threshold, window) && sort_slot(row, window)
                == slot,
    )
}

/// The kept rows of the first `slots` sort keys, key by key.
pub open spec fn ordered_upto(
    rows: Seq<Variant>,
    protein: Seq<char>,
    condition: Seq<char>,
    paint: Paint,
    threshold: Option<i64>,
    window: PageWindow,
    slots: nat,
) -> Seq<Variant>
    decreases slots,
{
    if slots == 0 {
        Seq::empty()
    } else {
        ordered_upto(rows, protein, condition, paint, threshold, window, (slots - 1) as nat)
            + slot_rows(rows, protein, condition, paint, threshold, window, slots - 1)
    }
}

/// The rows of a page without a ranking policy: every kept row, by position
/// and symbol, rows of one position and symbol in the order of `rows`.
pub open spec fn ordered_page(
    rows: Seq<Variant>,
    protein: Seq<char>,
    condition: Seq<char>,
    paint: Paint,
    threshold: Option<i64>,
    window: PageWindow,
) -> Seq<Variant> {
    ordered_upto(rows, protein, condition, paint, threshold, window, window.span() * 22)
}

/// The rows of a page: the winners under a ranking policy, every kept row
/// without one. The threshold bears on the latter only.
pub open spec fn page_rows(
    rows: Seq<Variant>,
    protein: Seq<char>,
    condition: Seq<char>,
    policy: PositionFilter,
    paint: Paint,
    threshold: Option<i64>,
    window: PageWindow,
) -> Seq<Variant> {
    if policy == PositionFilter::NoOrder {
        ordered_page(rows, protein, condition, paint, threshold, window)
    } else {
        ranked_page(rows, policy, protein, condition, window)
    }
}

/// Decides [`outranks`].
pub fn is_better(policy: PositionFilter, a: &Variant, b: &Variant) -> (better: bool)
    ensures
        better == outranks(policy, *a, *b),
{
    match policy {
        PositionFilter::MostSignificantPValue => a.p_value < b.p_value,
        PositionFilter::LargestLog2FoldChange => a.log2_fold_change > b.log2_fold_change,
        PositionFilter::LargestZStatistic => a.statistic > b.statistic,
        PositionFilter::NoOrder => false,
    }
}

/// The index of the row shown for `pos` among `rows`.
pub fn find_winner(
    rows: &Vec<Variant>,
    policy: PositionFilter,
    protein: &str,
    condition: &str,
    pos: i64,
) -> (best: Option<usize>)
    ensures
        best matches Some(b) ==> b < rows.len(),
        best matches Some(b) ==> winner(rows@, policy, protein@, condition@, pos as int) == Some(
            b as int,
        ),
        best is None ==> winner(rows@, policy, protein@, condition@, pos as int) is None,
{
    let protein_name: String = String::from_str(protein);
    let condition_name: String = String::from_str(condition);
    let mut best: Option<usize> = None;
    let mut i: usize = 0;
    while i < rows.len()
        invariant
            i <= rows.len(),
            protein_name@ == protein@,
            condition_name@ == condition@,
            best matches Some(b) ==> b < i,
            best matches Some(b) ==> winner_upto(
                rows@,
                policy,
                protein@,
                condition@,
                pos as int,
                i as nat,
            ) == Some(b as int),
            best is None ==> winner_upto(rows@, policy, protein@, condition@, pos as int, i as nat)
                is None,
        decreases rows.len() - i,
    {
        let row: &Variant = &rows[i];
        if row.pos as i64 == pos && row.protein == protein_name && row.condition
            == condition_name {
            match best {
                Some(b) => {
                    if is_better(policy, row, &rows[b]) {
                        best = Some(i);
                    }
                },
                None => {
                    best = Some(i);
                },
            }
        }
        i = i + 1;
    }
    best
}

/// The rows of a page under a ranking policy. The rows are gone through
/// once for every position of the window.
pub fn ranked_rows(
    rows: &Vec<Variant>,
    policy: PositionFilter,
    protein: &str,
    condition: &str,
    window: PageWindow,
) -> (out: Vec<Variant>)
    ensures
        out@ == ranked_page(rows@, policy, protein@, condition@, window),
{
    let mut out: Vec<Variant> = Vec::new();
    let mut pos: i128 = window.start as i128;
    while pos <= window.end as i128
        invariant
            window.start <= pos,
            pos <= window.end + 1 || window.end < window.start,
            window.end < window.start ==> pos == window.start,
            out@ == ranked_upto(
                rows@,
                policy,
                protein@,
                condition@,
                window.start as int,
                (pos - window.start) as nat,
            ),
        decreases window.end + 1 - pos,
    {
        let best: Option<usize> = find_winner(rows, policy, protein, condition, pos as i64);
        match best {
            Some(b) => {
                out.push(rows[b].clone());
            },
            None => {},
        }
        pos = pos + 1;
    }
    out
}

/// The rows of a page without a ranking policy. The rows are gone through
/// once for every position of the window and every rank of a symbol.
pub fn ordered_rows(
    rows: &Vec<Variant>,
    protein: &str,
    condition: &str,
    paint: Paint,
    threshold: Option<i64>,
    window: PageWindow,
) -> (out: Vec<Variant>)
    ensures
        out@ == ordered_page(rows@, protein@, condition@, paint, threshold, window),
{
    let protein_name: String = String::from_str(protein);
    let condition_name: String = String::from_str(condition);
    let n: usize = rows.len();
    // For each row, whether it is kept apart from its position, and the rank of its symbol.
    let mut kept: Vec<bool> = Vec::new();
    let mut ranks: Vec<usize> = Vec::new();
    let mut i: usize = 0;
    while i < n
        invariant
            i <= n,
            n == rows.len(),
            protein_name@ == protein@,
            condition_name@ == condition@,
            kept.len() == i,
            ranks.len() == i,
            forall|j: int|
                0 <= j < i ==> kept[j] == (in_scope(rows[j], protein@, condition@) && passes(
                    rows[j],
                    paint,
                    threshold,
                )),
            forall|j: int| 0 <= j < i ==> ranks[j] == aa_rank(#[trigger] rows[j].aa@),
        decreases n - i,
    {
        let row: &Variant = &rows[i];
        let below: bool = match threshold {
            Some(t) => paint.value_of(row) < t,
            None => true,
        };
        kept.push(row.protein == protein_name && row.condition == condition_name && below);
        ranks.push(amino_acid_rank(&row.aa));
        i = i + 1;
    }
    let mut out: Vec<Variant> = Vec::new();
    let mut pos: i128 = window.start as i128;
    while pos <= window.end as i128
        invariant
            n == rows.len(),
            kept.len() == n,
            ranks.len() == n,
            forall|j: int|
                0 <= j < n ==> kept[j] == (in_scope(rows[j], protein@, condition@) && passes(
                    rows[j],
                    paint,
                    threshold,
                )),
            forall|j: int| 0 <= j < n ==> ranks[j] == aa_rank(#[trigger] rows[j].aa@),
            window.start <= pos,
            pos <= window.end + 1 || window.end < window.start,
            window.end < window.start ==> pos == window.start,
            out@ == ordered_upto(
                rows@,
                protein@,
                condition@,
                paint,
                threshold,
                window,
                ((pos - window.start) * 22) as nat,
            ),
        decreases window.end + 1 - pos,
    {
        let mut rank: usize = 0;
        while rank < 22
            invariant
                n == rows.len(),
                kept.len() == n,
                ranks.len() == n,
                forall|j: int|
                    0 <= j < n ==> kept[j] == (in_scope(rows[j], protein@, condition@) && passes(
                        rows[j],
                        paint,
                        threshold,
                    )),
                forall|j: int| 0 <= j < n ==> ranks[j] == aa_rank(#[trigger] rows[j].aa@),
                window.start <= pos <= window.end,
                rank <= 22,
                out@ == ordered_upto(
                    rows@,
                    protein@,
                    condition@,
                    paint,
                    threshold,
                    window,
                    ((pos - window.start) * 22 + rank) as nat,
                ),
            decreases 22 - rank,
        {
            let ghost slot: int = (pos - window.start) * 22 + rank;
            let ghost wanted = |row: Variant|
                selected(row, protein@, condition@, paint, threshold, window) && sort_slot(
                    row,
                    window,
                ) == slot;
            let ghost before: Seq<Variant> = out@;
            let mut k: usize = 0;
            proof {
                assert(rows@.take(0) =~= Seq::<Variant>::empty());
                assert(rows@.take(0).filter(wanted) =~= Seq::<Variant>::empty()) by {
                    reveal(Seq::filter);
                }
            }
            while k < n
                invariant
                    n == rows.len(),
                    kept.len() == n,
                    ranks.len() == n,
                    forall|j: int|
                        0 <= j < n ==> kept[j] == (in_scope(rows[j], protein@, condition@)
                            && passes(rows[j], paint, threshold)),
                    forall|j: int| 0 <= j < n ==> ranks[j] == aa_rank(#[trigger] rows[j].aa@),
                    window.start <= pos <= window.end,
                    rank < 22,
                    slot == (pos - window.start) * 22 + rank,
                    wanted == (|row: Variant|
                        selected(row, protein@, condition@, paint, threshold, window) && sort_slot(
                            row,
                            window,
                        ) == slot),
                    k <= n,
                    out@ == before + rows@.take(k as int).filter(wanted),
                decreases n - k,
            {
                proof {
                    assert(rows@.take(k + 1) =~= rows@.take(k as int).push(rows[k as int]));
                    rows@.take(k as int).lemma_filter_push(rows[k as int], wanted);
                    lemma_aa_rank(rows[k as int].aa@);
                }
                if kept[k] && rows[k].pos as i128 == pos && ranks[k] == rank {
                    out.push(rows[k].clone());
                }
                k = k + 1;
            }
            proof {
                assert(rows@.take(n as int) =~= rows@);
            }
            rank = rank + 1;
        }
        pos = pos + 1;
    }
    out
}

/// The rows of a page: the winners under a ranking policy, every kept row
/// without one.
pub fn select_page(
    rows: &Vec<Variant>,
    protein: &str,
    condition: &str,
    policy: PositionFilter,
    paint: Paint,
    threshold: Option<i64>,
    window: PageWindow,
) -> (out: Vec<Variant>)
    ensures
        out@ == page_rows(rows@, protein@, condition@, policy, paint, threshold, window),
{
    match policy {
        PositionFilter::NoOrder => ordered_rows(rows, protein, condition, paint, threshold, window),
        _ => ranked_rows(rows, policy, protein, condition, window),
    }
}

/// The row shown for a position is a candidate for it that no candidate
/// outranks and that outranks every candidate before it: the first of the
/// best. Where no row is shown, no row contends.
pub proof fn lemma_winner_upto(
    rows: Seq<Variant>,
    policy: PositionFilter,
    protein: Seq<char>,
    condition: Seq<char>,
    pos: int,
    n: nat,
)
    requires
        n <= rows.len(),
    ensures
        match winner_upto(rows, policy, protein, condition, pos, n) {
            Some(w) => {
                &&& 0 <= w < n
                &&& contends(rows[w], protein, condition, pos)
                &&& forall|j: int|
                    0 <= j < n && contends(#[trigger] rows[j], protein, condition, pos)
                        ==> !outranks(policy, rows[j], rows[w])
                &&& forall|j: int|
                    0 <= j < w && contends(#[trigger] rows[j], protein, condition, pos)
                        ==> outranks(policy, rows[w], rows[j])
            },
            None => forall|j: int|
                0 <= j < n ==> !contends(#[trigger] rows[j], protein, condition, pos),
        },
    decreases n,
{
    if n > 0 {
        lemma_winner_upto(rows, policy, protein, condition, pos, (n - 1) as nat);
    }
}

/// Under each policy the row shown for a position has the extreme value
/// among the rows that contend for it: the least p-value, the greatest
/// fold change or the greatest statistic; and of the rows with that value
/// it is the first.
pub proof fn lemma_winner_is_extreme(
    rows: Seq<Variant>,
    policy: PositionFilter,
    protein: Seq<char>,
    condition: Seq<char>,
    pos: int,
    j: int,
)
    requires
        0 <= j < rows.len(),
        contends(rows[j], protein, condition, pos),
    ensures
        winner(rows, policy, protein, condition, pos) matches Some(w) && 0 <= w < rows.len()
            && contends(rows[w], protein, condition, pos) && match policy {
            PositionFilter::MostSignificantPValue => rows[w].p_value <= rows[j].p_value && (j < w
                ==> rows[w].p_value < rows[j].p_value),
            PositionFilter::LargestLog2FoldChange => rows[w].log2_fold_change
                >= rows[j].log2_fold_change && (j < w ==> rows[w].log2_fold_change
                > rows[j].log2_fold_change),
            PositionFilter::LargestZStatistic => rows[w].statistic >= rows[j].statistic && (j < w
                ==> rows[w].statistic > rows[j].statistic),
            PositionFilter::NoOrder => w <= j,
        },
{
    lemma_winner_upto(rows, policy, protein, condition, pos, rows.len());
}

/// The rows of a ranked page lie in scope and in the window, one to a
/// position, by rising position.
pub proof fn lemma_ranked_upto(
    rows: Seq<Variant>,
    policy: PositionFilter,
    protein: Seq<char>,
    condition: Seq<char>,
    start: int,
    count: nat,
)
    ensures
        forall|k: int|
            0 <= k < ranked_upto(rows, policy, protein, condition, start, count).len() ==> {
                let row = #[trigger] ranked_upto(rows, policy, protein, condition, start, count)[k];
                &&& in_scope(row, protein, condition)
                &&& start <= row.pos < start + count
                &&& winner(rows, policy, protein, condition, row.pos as int) matches Some(w)
                    && rows[w] == row
            },
        forall|k: int, l: int|
            0 <= k < l < ranked_upto(rows, policy, protein, condition, start, count).len()
                ==> (#[trigger] ranked_upto(rows, policy, protein, condition, start, count)[k]).pos
                < (#[trigger] ranked_upto(rows, policy, protein, condition, start, count)[l]).pos,
        forall|pos: int|
            start <= pos < start + count ==> (#[trigger] winner(
                rows,
                policy,
                protein,
                condition,
                pos,
            ) matches Some(w) ==> ranked_upto(
                rows,
                policy,
                protein,
                condition,
                start,
                count,
            ).contains(rows[w])),
    decreases count,
{
    if count > 0 {
        let before = ranked_upto(rows, policy, protein, condition, start, (count - 1) as nat);
        let all = ranked_upto(rows, policy, protein, condition, start, count);
        let last = start + count - 1;
        lemma_ranked_upto(rows, policy, protein, condition, start, (count - 1) as nat);
        lemma_winner_upto(rows, policy, protein, condition, last, rows.len());
        match winner(rows, policy, protein, condition, last) {
            Some(w) => {
                assert(all == before.push(rows[w]));
                assert(all[before.len() as int] == rows[w]);
                assert forall|pos: int| start <= pos < start + count implies (#[trigger] winner(
                    rows,
                    policy,
                    protein,
                    condition,
                    pos,
                ) matches Some(v) ==> all.contains(rows[v])) by {
                    if let Some(v) = winner(rows, policy, protein, condition, pos) {
                        if pos < last {
                            assert(before.contains(rows[v]));
                            let k = choose|k: int| 0 <= k < before.len() && before[k] == rows[v];
                            assert(all[k] == rows[v]);
                        }
                    }
                }
            },
            None => {},
        }
    }
}

/// A ranked page holds, for every position of its window for which a row
/// contends, the row shown for it and no other row, by rising position.
pub proof fn lemma_ranked_page(
    rows: Seq<Variant>,
    policy: PositionFilter,
    protein: Seq<char>,
    condition: Seq<char>,
    window: PageWindow,
)
    ensures
        forall|k: int|
            0 <= k < ranked_page(rows, policy, protein, condition, window).len() ==> {
                let row = #[trigger] ranked_page(rows, policy, protein, condition, window)[k];
                &&& in_scope(row, protein, condition)
                &&& window.holds(row.pos as int)
                &&& winner(rows, policy, protein, condition, row.pos as int) matches Some(w)
                    && rows[w] == row
            },
        forall|k: int, l: int|
            0 <= k < l < ranked_page(rows, policy, protein, condition, window).len() ==> (
            #[trigger] ranked_page(rows, policy, protein, condition, window)[k]).pos < (
            #[trigger] ranked_page(rows, policy, protein, condition, window)[l]).pos,
        forall|pos: int|
            window.holds(pos) ==> (#[trigger] winner(rows, policy, protein, condition, pos) matches Some(
                w,
            ) ==> ranked_page(rows, policy, protein, condition, window).contains(rows[w])),
{
    lemma_ranked_upto(rows, policy, protein, condition, window.start as int, window.span());
}

/// A sort key of a kept row lies among the keys of the window.
pub proof fn lemma_sort_slot_bounds(row: Variant, window: PageWindow)
    requires
        window.holds(row.pos as int),
    ensures
        0 <= sort_slot(row, window) < window.span() * 22,
{
    lemma_aa_rank(row.aa@);
}

/// The rows of an unranked page up to a sort key are kept rows of the
/// input with keys below it, by rising key.
pub proof fn lemma_ordered_upto(
    rows: Seq<Variant>,
    protein: Seq<char>,
    condition: Seq<char>,
    paint: Paint,
    threshold: Option<i64>,
    window: PageWindow,
    slots: nat,
)
    ensures
        forall|k: int|
            0 <= k < ordered_upto(rows, protein, condition, paint, threshold, window, slots).len()
                ==> {
                let row = #[trigger] ordered_upto(
                    rows,
                    protein,
                    condition,
                    paint,
                    threshold,
                    window,
                    slots,
                )[k];
                &&& rows.contains(row)
                &&& selected(row, protein, condition, paint, threshold, window)
                &&& 0 <= sort_slot(row, window) < slots
            },
        forall|k: int, l: int|
            0 <= k < l < ordered_upto(rows, protein, condition, paint, threshold, window, slots).len()
                ==> sort_slot(
                #[trigger] ordered_upto(rows, protein, condition, paint, threshold, window, slots)[k],
                window,
            ) <= sort_slot(
                #[trigger] ordered_upto(rows, protein, condition, paint, threshold, window, slots)[l],
                window,
            ),
        forall|i: int|
            0 <= i < rows.len() && selected(
                #[trigger] rows[i],
                protein,
                condition,
                paint,
                threshold,
                window,
            ) && 0 <= sort_slot(rows[i], window) < slots ==> ordered_upto(
                rows,
                protein,
                condition,
                paint,
                threshold,
                window,
                slots,
            ).contains(rows[i]),
    decreases slots,
{
    broadcast use vstd::seq_lib::group_filter_ensures;

    if slots > 0 {
        let before = ordered_upto(
            rows,
            protein,
            condition,
            paint,
            threshold,
            window,
            (slots - 1) as nat,
        );
        let here = slot_rows(rows, protein, condition, paint, threshold, window, slots - 1);
        let all = ordered_upto(rows, protein, condition, paint, threshold, window, slots);
        let wanted = |row: Variant|
            selected(row, protein, condition, paint, threshold, window) && sort_slot(row, window)
                == slots - 1;
        lemma_ordered_upto(
            rows,
            protein,
            condition,
            paint,
            threshold,
            window,
            (slots - 1) as nat,
        );
        assert(all == before + here);
        assert forall|k: int| 0 <= k < here.len() implies rows.contains(#[trigger] here[k])
            && wanted(here[k]) by {
            rows.lemma_filter_pred(wanted, k);
            assert(rows.filter(wanted).contains(here[k]));
            rows.lemma_filter_contains_rev(wanted, here[k]);
        }
        assert forall|k: int| 0 <= k < all.len() implies {
            let row = #[trigger] all[k];
            &&& rows.contains(row)
            &&& selected(row, protein, condition, paint, threshold, window)
            &&& 0 <= sort_slot(row, window) < slots
        } by {
            if k < before.len() {
                assert(all[k] == before[k]);
            } else {
                assert(all[k] == here[k - before.len()]);
            }
        }
        assert forall|k: int, l: int| 0 <= k < l < all.len() implies sort_slot(
            #[trigger] all[k],
            window,
        ) <= sort_slot(#[trigger] all[l], window) by {
            if l < before.len() {
                assert(all[k] == before[k] && all[l] == before[l]);
            } else {
                assert(all[l] == here[l - before.len()]);
                if k < before.len() {
                    assert(all[k] == before[k]);
                } else {
                    assert(all[k] == here[k - before.len()]);
                }
            }
        }
        assert forall|i: int|
            0 <= i < rows.len() && selected(
                #[trigger] rows[i],
                protein,
                condition,
                paint,
                threshold,
                window,
            ) && 0 <= sort_slot(rows[i], window) < slots implies all.contains(rows[i]) by {
            if sort_slot(rows[i], window) == slots - 1 {
                assert(wanted(rows[i]));
                rows.lemma_filter_contains(wanted, i);
                let k = choose|k: int| 0 <= k < here.len() && here[k] == rows[i];
                assert(all[before.len() + k] == rows[i]);
            } else {
                assert(before.contains(rows[i]));
                let k = choose|k: int| 0 <= k < before.len() && before[k] == rows[i];
                assert(all[k] == rows[i]);
            }
        }
    }
}

/// Without a ranking policy a page holds the rows of the input that are in
/// scope, in the window and below the threshold where one is given, and
/// no other row; they stand by position, rows of one position by the rank
/// of their symbol.
pub proof fn lemma_ordered_page(
    rows: Seq<Variant>,
    protein: Seq<char>,
    condition: Seq<char>,
    paint: Paint,
    threshold: Option<i64>,
    window: PageWindow,
)
    ensures
        forall|k: int|
            0 <= k < ordered_page(rows, protein, condition, paint, threshold, window).len() ==> {
                let row = #[trigger] ordered_page(
                    rows,
                    protein,
                    condition,
                    paint,
                    threshold,
                    window,
                )[k];
                rows.contains(row) && selected(row, protein, condition, paint, threshold, window)
            },
        forall|i: int|
            0 <= i < rows.len() && selected(
                #[trigger] rows[i],
                protein,
                condition,
                paint,
                threshold,
                window,
            ) ==> ordered_page(rows, protein, condition, paint, threshold, window).contains(
                rows[i],
            ),
        forall|k: int, l: int|
            0 <= k < l < ordered_page(rows, protein, condition, paint, threshold, window).len() ==> {
                let a = #[trigger] ordered_page(rows, protein, condition, paint, threshold, window)[k];
                let b = #[trigger] ordered_page(rows, protein, condition, paint, threshold, window)[l];
                a.pos < b.pos || (a.pos == b.pos && aa_rank(a.aa@) <= aa_rank(b.aa@))
            },
{
    let all = ordered_page(rows, protein, condition, paint, threshold, window);
    lemma_ordered_upto(rows, protein, condition, paint, threshold, window, window.span() * 22);
    assert forall|i: int|
        0 <= i < rows.len() && selected(
            #[trigger] rows[i],
            protein,
            condition,
            paint,
            threshold,
            window,
        ) implies all.contains(rows[i]) by {
        lemma_sort_slot_bounds(rows[i], window);
    }
    assert forall|k: int, l: int| 0 <= k < l < all.len() implies {
        let a = #[trigger] all[k];
        let b = #[trigger] all[l];
        a.pos < b.pos || (a.pos == b.pos && aa_rank(a.aa@) <= aa_rank(b.aa@))
    } by {
        lemma_aa_rank(all[k].aa@);
        lemma_aa_rank(all[l].aa@);
        assert(sort_slot(all[k], window) <= sort_slot(all[l], window));
    }
}

/// Pages follow one another without gap or overlap. Page `n` covers the
/// positions from `(n - 1) * 100 + 1` to `n * 100`, the first page those
/// from 1 to 100; so no position is on two pages, and every position is
/// on one. A window is held back at the greatest position and no
/// earlier: it never reaches past it, and it ends with it where the page
/// covers it, so that the greatest position is on its page. A window that
/// is not held back has a page size of positions.
pub proof fn lemma_paging(page: i32, other: i32, max_position: Option<i32>, pos: int)
    ensures
        page_start(page as int) == (page - 1) * 100 + 1,
        page_end(page as int, None) == page * 100,
        page_start(1) == 1 && page_end(1, None) == 100,
        page_start(page + 1) == page_end(page as int, None) + 1,
        page < other ==> page_end(page as int, max_position) < page_start(other as int),
        page_start(page as int) <= pos <= page_end(page as int, None) ==> !(page_start(
            other as int,
        ) <= pos <= page_end(other as int, None)) || other == page,
        max_position matches Some(m) ==> page_end(page as int, max_position) <= m,
        max_position matches Some(m) ==> (page_start(page as int) <= m <= page_end(
            page as int,
            None,
        ) ==> page_end(page as int, max_position) == m),
        max_position matches Some(m) ==> (m >= page_end(page as int, None) ==> page_end(
            page as int,
            max_position,
        ) == page_end(page as int, None)),
        ({
            let window = PageWindow {
                start: page_start(page as int) as i64,
                end: page_end(page as int, max_position) as i64,
            };
            &&& window.wf()
            &&& window.start == page_start(page as int)
            &&& window.end == page_end(page as int, max_position)
            &&& window.span() <= PAGE_SIZE
            &&& max_position is None ==> window.span() == PAGE_SIZE
        }),
{
}

/// Every position is on exactly one page: the page that its number, less
/// one, divided by the page size and counted from 1, gives.
pub proof fn lemma_page_of(pos: i32, page: i32)
    ensures
        page_start(page as int) <= pos <= page_end(page as int, None) <==> page == (pos - 1) / (
        PAGE_SIZE as int) + 1,
{
}

/// A page that starts past the greatest position is empty, whatever the
/// policy.
pub proof fn lemma_page_past_end(
    rows: Seq<Variant>,
    protein: Seq<char>,
    condition: Seq<char>,
    policy: PositionFilter,
    paint: Paint,
    threshold: Option<i64>,
    page: int,
    greatest: i32,
)
    requires
        i32::MIN <= page <= i32::MAX,
        page_start(page) > greatest,
    ensures
        page_rows(
            rows,
            protein,
            condition,
            policy,
            paint,
            threshold,
            PageWindow {
                start: page_start(page) as i64,
                end: page_end(page, Some(greatest)) as i64,
            },
        ).len() == 0,
{
}

/// Where every row meets exactly one of two conditions or neither, the
/// rows that meet either are, as a multiset, those that meet the one and
/// those that meet the other.
proof fn lemma_filter_split(
    rows: Seq<Variant>,
    one: spec_fn(Variant) -> bool,
    other: spec_fn(Variant) -> bool,
    either: spec_fn(Variant) -> bool,
)
    requires
        forall|row: Variant| #[trigger] either(row) == (one(row) || other(row)),
        forall|row: Variant| !(#[trigger] one(row) && other(row)),
    ensures
        rows.filter(either).to_multiset() == rows.filter(one).to_multiset().add(
            rows.filter(other).to_multiset(),
        ),
    decreases rows.len(),
{
    broadcast use vstd::multiset::group_multiset_axioms;
    broadcast use vstd::seq_lib::to_multiset_build;

    if rows.len() == 0 {
        reveal(Seq::filter);
        assert(rows.filter(either) =~= Seq::<Variant>::empty());
        assert(rows.filter(one) =~= Seq::<Variant>::empty());
        assert(rows.filter(other) =~= Seq::<Variant>::empty());
        let none = Seq::<Variant>::empty();
        vstd::seq_lib::lemma_multiset_commutative(none, none);
        assert(none + none =~= none);
    } else {
        let rest = rows.drop_last();
        let last = rows.last();
        lemma_filter_split(rest, one, other, either);
        assert(rows =~= rest.push(last));
        rest.lemma_filter_push(last, either);
        rest.lemma_filter_push(last, one);
        rest.lemma_filter_push(last, other);
        assert(either(last) == (one(last) || other(last)));
        assert(!(one(last) && other(last)));
        let met = rest.filter(either).to_multiset();
        let first = rest.filter(one).to_multiset();
        let second = rest.filter(other).to_multiset();
        vstd::seq_lib::to_multiset_build(rest.filter(either), last);
        vstd::seq_lib::to_multiset_build(rest.filter(one), last);
        vstd::seq_lib::to_multiset_build(rest.filter(other), last);
        if one(last) {
            assert(met.insert(last) =~= first.insert(last).add(second));
        } else if other(last) {
            assert(met.insert(last) =~= first.add(second.insert(last)));
        }
    }
}

/// Two conditions that every row meets alike keep the same rows.
pub proof fn lemma_filter_same(
    rows: Seq<Variant>,
    one: spec_fn(Variant) -> bool,
    other: spec_fn(Variant) -> bool,
)
    requires
        forall|i: int| 0 <= i < rows.len() ==> one(#[trigger] rows[i]) == other(rows[i]),
    ensures
        rows.filter(one) == rows.filter(other),
    decreases rows.len(),
{
    if rows.len() == 0 {
        reveal(Seq::filter);
    } else {
        let rest = rows.drop_last();
        let last = rows.last();
        assert forall|i: int| 0 <= i < rest.len() implies one(#[trigger] rest[i]) == other(
            rest[i],
        ) by {
            assert(rest[i] == rows[i]);
        }
        lemma_filter_same(rest, one, other);
        assert(rows =~= rest.push(last));
        rest.lemma_filter_push(last, one);
        rest.lemma_filter_push(last, other);
        assert(one(rows[rows.len() - 1]) == other(rows[rows.len() - 1]));
    }
}

/// Up to a sort key an unranked page holds, as a multiset, the kept rows
/// with keys below it.
proof fn lemma_ordered_upto_multiset(
    rows: Seq<Variant>,
    protein: Seq<char>,
    condition: Seq<char>,
    paint: Paint,
    threshold: Option<i64>,
    window: PageWindow,
    slots: nat,
)
    ensures
        ordered_upto(rows, protein, condition, paint, threshold, window, slots).to_multiset()
            == rows.filter(
            |row: Variant|
                selected(row, protein, condition, paint, threshold, window) && 0 <= sort_slot(
                    row,
                    window,
                ) < slots,
        ).to_multiset(),
    decreases slots,
{
    broadcast use vstd::seq_lib::lemma_multiset_commutative;

    let below = |row: Variant|
        selected(row, protein, condition, paint, threshold, window) && 0 <= sort_slot(row, window)
            < slots;
    if slots == 0 {
        let never = |row: Variant| false;
        lemma_filter_same(rows, below, never);
        assert(rows.all(|row: Variant| !never(row)));
        rows.lemma_all_neg_filter_empty(never);
        assert(rows.filter(below) =~= Seq::<Variant>::empty());
    } else {
        let earlier = |row: Variant|
            selected(row, protein, condition, paint, threshold, window) && 0 <= sort_slot(
                row,
                window,
            ) < slots - 1;
        let here = |row: Variant|
            selected(row, protein, condition, paint, threshold, window) && sort_slot(row, window)
                == slots - 1;
        lemma_ordered_upto_multiset(
            rows,
            protein,
            condition,
            paint,
            threshold,
            window,
            (slots - 1) as nat,
        );
        lemma_filter_split(rows, earlier, here, below);
        assert(slot_rows(rows, protein, condition, paint, threshold, window, slots - 1)
            == rows.filter(here));
    }
}

/// Without a ranking policy a page holds every row of the input that is
/// kept as often as the input holds it, and nothing else: rows pass
/// through, sifted by scope, window and threshold alone.
pub proof fn lemma_ordered_page_same_rows(
    rows: Seq<Variant>,
    protein: Seq<char>,
    condition: Seq<char>,
    paint: Paint,
    threshold: Option<i64>,
    window: PageWindow,
)
    ensures
        ordered_page(rows, protein, condition, paint, threshold, window).to_multiset()
            == rows.filter(
            |row: Variant| selected(row, protein, condition, paint, threshold, window),
        ).to_multiset(),
        ordered_page(rows, protein, condition, paint, threshold, window).len() == rows.filter(
            |row: Variant| selected(row, protein, condition, paint, threshold, window),
        ).len(),
{
    let kept = |row: Variant| selected(row, protein, condition, paint, threshold, window);
    let below = |row: Variant|
        selected(row, protein, condition, paint, threshold, window) && 0 <= sort_slot(row, window)
            < window.span() * 22;
    lemma_ordered_upto_multiset(
        rows,
        protein,
        condition,
        paint,
        threshold,
        window,
        window.span() * 22,
    );
    assert forall|i: int| 0 <= i < rows.len() implies below(#[trigger] rows[i]) == kept(
        rows[i],
    ) by {
        if kept(rows[i]) {
            lemma_sort_slot_bounds(rows[i], window);
        }
    }
    lemma_filter_same(rows, below, kept);
    vstd::seq_lib::to_multiset_len(
        ordered_page(rows, protein, condition, paint, threshold, window),
    );
    vstd::seq_lib::to_multiset_len(rows.filter(kept));
}

} // verus!
