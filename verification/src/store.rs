//! The variant store: the table of proteins and the rows of every protein,
//! with the queries the viewer asks of them.
//!
//! Rows enter through [`VariantStore::bulk_insert`] only, which takes a batch
//! whole or not at all, and are never changed afterwards.

use vstd::prelude::*;
use crate::model::{is_row_valid, row_valid, texts, Paint, PositionFilter, Protein, Variant};
use crate::query::{
    all_rows, any_in_scope, conditions_of, is_range_of, max_position, window_of, MetricRange,
    StoreError,
};
use crate::ranking::{page_rows, PageWindow};

verus! {

/// The index of the protein called `name`, if the table has it.
pub open spec fn protein_index_upto(proteins: Seq<Protein>, name: Seq<char>, n: nat) -> Option<
    int,
>
    decreases n,
{
    if n == 0 {
        None
    } else {
        match protein_index_upto(proteins, name, (n - 1) as nat) {
            Some(k) => Some(k),
            None => if proteins[n - 1].name@ == name {
                Some(n - 1)
            } else {
                None
            },
        }
    }
}

/// The index of the first protein called `name`, if the table has one.
pub open spec fn protein_index(proteins: Seq<Protein>, name: Seq<char>) -> Option<int> {
    protein_index_upto(proteins, name, proteins.len())
}

/// `protein_index_upto` finds the first protein of that name below `n`.
pub proof fn lemma_protein_index_upto(proteins: Seq<Protein>, name: Seq<char>, n: nat)
    requires
        n <= proteins.len(),
    ensures
        protein_index_upto(proteins, name, n) matches Some(k) ==> 0 <= k < n && proteins[k].name@
            == name && protein_index_upto(proteins, name, k as nat) is None,
        protein_index_upto(proteins, name, n) is None ==> forall|j: int|
            0 <= j < n ==> (#[trigger] proteins[j]).name@ != name,
    decreases n,
{
    if n > 0 {
        lemma_protein_index_upto(proteins, name, (n - 1) as nat);
    }
}

/// The row as it is stored: under a fresh id and the store's own name of
/// the protein.
pub open spec fn stored_row(row: Variant, id: int, protein: String) -> Variant {
    Variant {
        id: Some(id as i32),
        chunk: row.chunk,
        pos: row.pos,
        condition: row.condition,
        aa: row.aa,
        log2_fold_change: row.log2_fold_change,
        log2_std_error: row.log2_std_error,
        statistic: row.statistic,
        p_value: row.p_value,
        version: row.version,
        protein: protein,
        created_on: row.created_on,
    }
}

/// A batch as it is stored after `base` earlier rows: ids count on from
/// `base + 1`.
pub open spec fn stored_batch(batch: Seq<Variant>, base: int, protein: String) -> Seq<Variant> {
    Seq::new(batch.len(), |i: int| stored_row(batch[i], base + i + 1, protein))
}

/// Whether every row of a batch meets the data model.
pub open spec fn batch_valid(batch: Seq<Variant>) -> bool {
    forall|i: int| 0 <= i < batch.len() ==> row_valid(#[trigger] batch[i])
}

/// What becomes of a batch that is offered to a store which holds `held`
/// rows: it is turned down as not found where its protein is unknown, and
/// as not storable where a row does not meet the data model or the ids
/// would run out; else it is taken, and the answer counts its rows.
pub open spec fn admission(known: bool, batch: Seq<Variant>, held: nat) -> Result<u64, StoreError> {
    if !known {
        Err(StoreError::NotFound)
    } else if batch_valid(batch) && held + batch.len() <= i32::MAX {
        Ok(batch.len() as u64)
    } else {
        Err(StoreError::Storage)
    }
}

/// What a store holds after a batch was offered to it: every row of the
/// batch behind what it held, or what it held and nothing else.
pub open spec fn rows_after(
    proteins: Seq<Protein>,
    before: Seq<Variant>,
    batch: Seq<Variant>,
    protein: Seq<char>,
) -> Seq<Variant> {
    match protein_index(proteins, protein) {
        Some(k) => if admission(true, batch, before.len()) is Ok {
            before + stored_batch(batch, before.len() as int, proteins[k].name)
        } else {
            before
        },
        None => before,
    }
}

/// Decides [`batch_valid`].
pub fn is_batch_valid(batch: &Vec<Variant>) -> (valid: bool)
    ensures
        valid == batch_valid(batch@),
{
    let mut i: usize = 0;
    while i < batch.len()
        invariant
            i <= batch.len(),
            forall|j: int| 0 <= j < i ==> row_valid(#[trigger] batch@[j]),
        decreases batch.len() - i,
    {
        if !is_row_valid(&batch[i]) {
            assert(!row_valid(batch@[i as int]));
            return false;
        }
        i = i + 1;
    }
    true
}

/// Decides [`admission`].
pub fn check_batch(known: bool, batch: &Vec<Variant>, held: usize) -> (admitted: Result<u64, StoreError>)
    ensures
        admitted == admission(known, batch@, held as nat),
{
    if !known {
        Err(StoreError::NotFound)
    } else if held <= i32::MAX as usize && batch.len() <= i32::MAX as usize - held
        && is_batch_valid(batch) {
        Ok(batch.len() as u64)
    } else {
        Err(StoreError::Storage)
    }
}

/// The rows of every protein and the table of proteins they refer to.
pub struct VariantStore {
    proteins: Vec<Protein>,
    variants: Vec<Variant>,
}

impl VariantStore {
    /// The stored rows, in the order in which they were inserted.
    pub closed spec fn rows(&self) -> Seq<Variant> {
        self.variants@
    }

    /// The table of proteins, in the order in which they were added.
    pub closed spec fn proteins(&self) -> Seq<Protein> {
        self.proteins@
    }

    /// What holds of every store: the n-th protein and the n-th row bear the
    /// id n, names of proteins are not repeated, and every row meets the
    /// data model and names a protein of the table.
    pub open spec fn wf(&self) -> bool {
        &&& self.proteins().len() <= i32::MAX
        &&& self.rows().len() <= i32::MAX
        &&& forall|k: int|
            0 <= k < self.proteins().len() ==> (#[trigger] self.proteins()[k]).id == k + 1
        &&& forall|j: int, k: int|
            0 <= j < k < self.proteins().len() ==> (#[trigger] self.proteins()[j]).name@ != (
            #[trigger] self.proteins()[k]).name@
        &&& forall|i: int| 0 <= i < self.rows().len() ==> (#[trigger] self.rows()[i]).id == Some(
            (i + 1) as i32,
        )
        &&& forall|i: int| 0 <= i < self.rows().len() ==> row_valid(#[trigger] self.rows()[i])
        &&& forall|i: int|
            0 <= i < self.rows().len() ==> protein_index(
                self.proteins(),
                (#[trigger] self.rows()[i]).protein@,
            ) is Some
    }

    /// A store without proteins or rows.
    pub fn new() -> (store: VariantStore)
        ensures
            store.wf(),
            store.rows() == Seq::<Variant>::empty(),
            store.proteins() == Seq::<Protein>::empty(),
    {
        VariantStore { proteins: Vec::new(), variants: Vec::new() }
    }

    /// The number of stored rows.
    pub fn len(&self) -> (n: usize)
        ensures
            n == self.rows().len(),
    {
        self.variants.len()
    }

    /// The place of the protein called `name` in the table.
    pub fn find_protein(&self, name: &str) -> (found: Option<usize>)
        ensures
            found matches Some(k) ==> protein_index(self.proteins(), name@) == Some(k as int) && k
                < self.proteins().len(),
            found is None ==> protein_index(self.proteins(), name@) is None,
    {
        let wanted: String = String::from_str(name);
        let mut k: usize = 0;
        while k < self.proteins.len()
            invariant
                k <= self.proteins.len(),
                wanted@ == name@,
                protein_index_upto(self.proteins@, name@, k as nat) is None,
            decreases self.proteins.len() - k,
        {
            if self.proteins[k].name == wanted {
                proof {
                    lemma_protein_index_found(self.proteins@, name@, k as nat, self.proteins@.len());
                }
                return Some(k);
            }
            k = k + 1;
        }
        None
    }

    /// Adds a protein to the table unless it is there, and gives its id.
    /// A full table takes no further protein.
    pub fn add_protein(&mut self, name: &str) -> (id: Result<i32, StoreError>)
        requires
            old(self).wf(),
        ensures
            final(self).wf(),
            final(self).rows() == old(self).rows(),
            match protein_index(old(self).proteins(), name@) {
                Some(k) => id == Ok::<i32, StoreError>((k + 1) as i32) && final(self).proteins()
                    == old(self).proteins(),
                None => if old(self).proteins().len() < i32::MAX {
                    &&& id == Ok::<i32, StoreError>((old(self).proteins().len() + 1) as i32)
                    &&& final(self).proteins().len() == old(self).proteins().len() + 1
                    &&& final(self).proteins().subrange(0, old(self).proteins().len() as int)
                        == old(self).proteins()
                    &&& final(self).proteins().last().name@ == name@
                } else {
                    id == Err::<i32, StoreError>(StoreError::Storage) && final(self).proteins()
                        == old(self).proteins()
                },
            },
    {
        match self.find_protein(name) {
            Some(k) => Ok((k + 1) as i32),
            None => {
                let count: usize = self.proteins.len();
                if count >= i32::MAX as usize {
                    return Err(StoreError::Storage);
                }
                let id: i32 = (count + 1) as i32;
                let ghost before = self.proteins@;
                proof {
                    lemma_protein_index_upto(before, name@, before.len());
                }
                self.proteins.push(Protein { id, name: String::from_str(name) });
                proof {
                    let after = self.proteins@;
                    assert(after.subrange(0, before.len() as int) =~= before);
                    assert forall|i: int| 0 <= i < self.rows().len() implies protein_index(
                        after,
                        (#[trigger] self.rows()[i]).protein@,
                    ) is Some by {
                        lemma_protein_index_grows(before, after, self.rows()[i].protein@);
                    }
                }
                Ok(id)
            },
        }
    }

    /// The names of the proteins of the table, in its order.
    pub fn distinct_proteins(&self) -> (names: Vec<String>)
        ensures
            names@.len() == self.proteins().len(),
            forall|k: int| 0 <= k < names@.len() ==> names@[k]@ == self.proteins()[k].name@,
    {
        let mut names: Vec<String> = Vec::new();
        let mut k: usize = 0;
        while k < self.proteins.len()
            invariant
                k <= self.proteins.len(),
                names@.len() == k,
                forall|j: int| 0 <= j < k ==> names@[j]@ == self.proteins@[j].name@,
            decreases self.proteins.len() - k,
        {
            names.push(self.proteins[k].name.clone());
            k = k + 1;
        }
        names
    }

    /// The row stored under `id`.
    pub fn fetch_by_id(&self, id: i32) -> (row: Result<Variant, StoreError>)
        requires
            self.wf(),
        ensures
            1 <= id <= self.rows().len() ==> row == Ok::<Variant, StoreError>(
                self.rows()[id - 1],
            ),
            !(1 <= id <= self.rows().len()) ==> row == Err::<Variant, StoreError>(
                StoreError::NotFound,
            ),
    {
        if id >= 1 && (id as usize) <= self.variants.len() {
            Ok(self.variants[(id - 1) as usize].clone())
        } else {
            Err(StoreError::NotFound)
        }
    }

    /// The stored rows.
    pub fn variants(&self) -> (rows: &Vec<Variant>)
        ensures
            rows@ == self.rows(),
    {
        &self.variants
    }

    /// The conditions under which `protein` has rows, each once, in the
    /// order in which they first occur.
    pub fn distinct_conditions(&self, protein: &str) -> (conditions: Vec<String>)
        ensures
            texts(conditions@) == conditions_of(self.rows(), protein@),
    {
        crate::query::distinct_conditions(&self.variants, protein)
    }

    /// The range of a metric over the rows of a protein under a condition.
    /// Where there is no such row there is no range, and none is made up.
    pub fn range_and_extremum(&self, protein: &str, condition: &str, paint: Paint) -> (range:
        Result<MetricRange, StoreError>)
        ensures
            match range {
                Ok(r) => is_range_of(r, self.rows(), protein@, condition@, paint),
                Err(e) => e == StoreError::NotFound && !any_in_scope(
                    self.rows(),
                    protein@,
                    condition@,
                ),
            },
    {
        crate::query::range_and_extremum(&self.variants, protein, condition, paint)
    }

    /// The greatest position at which the protein has a row under the
    /// condition.
    pub fn max_position(&self, protein: &str, condition: &str) -> (greatest: Option<i32>)
        ensures
            greatest == max_position(self.rows(), protein@, condition@),
    {
        crate::query::greatest_position(&self.variants, protein, condition)
    }

    /// The window of page `page` of a protein under a condition.
    pub fn page_window(&self, protein: &str, condition: &str, page: i32) -> (window: PageWindow)
        ensures
            window == window_of(self.rows(), protein@, condition@, page as int),
    {
        crate::query::scope_window(&self.variants, protein, condition, page)
    }

    /// The rows of page `page` of a protein under a condition. The window
    /// is held back at the greatest position that has a row; where the
    /// protein has no row under the condition the window stays nominal and
    /// the page is empty.
    pub fn fetch_page(
        &self,
        protein: &str,
        condition: &str,
        page: i32,
        policy: PositionFilter,
        paint: Paint,
        threshold: Option<i64>,
    ) -> (out: Vec<Variant>)
        ensures
            out@ == page_rows(
                self.rows(),
                protein@,
                condition@,
                policy,
                paint,
                threshold,
                window_of(self.rows(), protein@, condition@, page as int),
            ),
    {
        crate::query::fetch_page(&self.variants, protein, condition, page, policy, paint, threshold)
    }

    /// The rows of a protein under a condition, all of them, by position
    /// and symbol.
    pub fn fetch_all(&self, protein: &str, condition: &str) -> (out: Vec<Variant>)
        ensures
            out@ == all_rows(self.rows(), protein@, condition@),
    {
        crate::query::fetch_all(&self.variants, protein, condition)
    }

    /// Stores a batch under the protein called `protein`, whole or not at
    /// all. Every row gets the next free id and the store's name of the
    /// protein. An unknown protein is not created. A batch with a row that
    /// does not meet the data model, or one that would exhaust the ids,
    /// leaves the store as it was.
    pub fn bulk_insert(&mut self, batch: &Vec<Variant>, protein: &str) -> (stored: Result<
        u64,
        StoreError,
    >)
        requires
            old(self).wf(),
        ensures
            final(self).wf(),
            final(self).proteins() == old(self).proteins(),
            stored == admission(
                protein_index(old(self).proteins(), protein@) is Some,
                batch@,
                old(self).rows().len(),
            ),
            final(self).rows() == rows_after(old(self).proteins(), old(self).rows(), batch@, protein@),
    {
        let found: Option<usize> = self.find_protein(protein);
        let base: usize = self.variants.len();
        match check_batch(found.is_some(), batch, base) {
            Ok(_) => {},
            Err(e) => {
                return Err(e);
            },
        }
        let k: usize = found.unwrap();
        let ghost before = self.variants@;
        let ghost name = self.proteins@[k as int].name;
        proof {
            lemma_protein_index_upto(self.proteins@, protein@, self.proteins@.len());
            assert(name@ == protein@);
        }
        let mut i: usize = 0;
        while i < batch.len()
            invariant
                i <= batch.len(),
                base == before.len(),
                base + batch.len() <= i32::MAX,
                k < self.proteins.len(),
                self.proteins == old(self).proteins,
                name == self.proteins@[k as int].name,
                name@ == protein@,
                old(self).wf(),
                before == old(self).variants@,
                protein_index(self.proteins@, protein@) == Some(k as int),
                batch_valid(batch@),
                self.variants@ == before + stored_batch(batch@, base as int, name).take(i as int),
            decreases batch.len() - i,
        {
            let row: &Variant = &batch[i];
            let id: i32 = (base + i + 1) as i32;
            let kept: Variant = Variant {
                id: Some(id),
                chunk: row.chunk,
                pos: row.pos,
                condition: row.condition.clone(),
                aa: row.aa.clone(),
                log2_fold_change: row.log2_fold_change,
                log2_std_error: row.log2_std_error,
                statistic: row.statistic,
                p_value: row.p_value,
                version: row.version.clone(),
                protein: self.proteins[k].name.clone(),
                created_on: row.created_on,
            };
            proof {
                let whole = stored_batch(batch@, base as int, name);
                assert(kept == whole[i as int]);
                assert(whole.take(i + 1) =~= whole.take(i as int).push(whole[i as int]));
                assert(before + whole.take(i + 1) =~= (before + whole.take(i as int)).push(kept));
            }
            self.variants.push(kept);
            i = i + 1;
        }
        proof {
            let whole = stored_batch(batch@, base as int, name);
            assert(whole.take(batch@.len() as int) =~= whole);
            assert forall|j: int| 0 <= j < self.rows().len() implies (#[trigger] self.rows()[j]).id
                == Some((j + 1) as i32) && row_valid(self.rows()[j]) && protein_index(
                self.proteins(),
                self.rows()[j].protein@,
            ) is Some by {
                if j >= base {
                    assert(self.rows()[j] == whole[j - base]);
                    assert(row_valid(batch@[j - base]));
                } else {
                    assert(self.rows()[j] == before[j]);
                }
            }
        }
        Ok(batch.len() as u64)
    }
}

/// A match at `k` with none before it is what the search finds, however
/// far it looks.
proof fn lemma_protein_index_found(proteins: Seq<Protein>, name: Seq<char>, k: nat, n: nat)
    requires
        k < n <= proteins.len(),
        protein_index_upto(proteins, name, k) is None,
        proteins[k as int].name@ == name,
    ensures
        protein_index_upto(proteins, name, n) == Some(k as int),
    decreases n,
{
    if n > k + 1 {
        lemma_protein_index_found(proteins, name, k, (n - 1) as nat);
    }
}

/// A protein that a table holds is still found after the table has grown
/// at its end.
proof fn lemma_protein_index_grows(before: Seq<Protein>, after: Seq<Protein>, name: Seq<char>)
    requires
        before.len() <= after.len(),
        after.subrange(0, before.len() as int) == before,
        protein_index(before, name) is Some,
    ensures
        protein_index(after, name) == protein_index(before, name),
{
    lemma_protein_index_upto(before, name, before.len());
    let k = protein_index(before, name).unwrap();
    assert forall|j: int| 0 <= j < before.len() implies after[j] == before[j] by {
        assert(after.subrange(0, before.len() as int)[j] == after[j]);
    }
    lemma_protein_index_prefix(before, after, name, k as nat);
    lemma_protein_index_found(after, name, k as nat, after.len());
}

/// Two tables that agree on their first `n` proteins give the same search
/// over those.
proof fn lemma_protein_index_prefix(a: Seq<Protein>, b: Seq<Protein>, name: Seq<char>, n: nat)
    requires
        n <= a.len(),
        n <= b.len(),
        forall|j: int| 0 <= j < n ==> a[j] == b[j],
    ensures
        protein_index_upto(a, name, n) == protein_index_upto(b, name, n),
    decreases n,
{
    if n > 0 {
        lemma_protein_index_prefix(a, b, name, (n - 1) as nat);
    }
}

/// A batch is stored whole or not at all: where it is turned down, for
/// whatever reason and at whichever row, the store holds what it held
/// before; where it is taken, every row of it follows what was held.
pub proof fn lemma_all_or_nothing(
    proteins: Seq<Protein>,
    before: Seq<Variant>,
    batch: Seq<Variant>,
    protein: Seq<char>,
)
    ensures
        ({
            let after = rows_after(proteins, before, batch, protein);
            match admission(protein_index(proteins, protein) is Some, batch, before.len()) {
                Ok(count) => {
                    &&& count == batch.len()
                    &&& after.len() == before.len() + batch.len()
                    &&& after.subrange(0, before.len() as int) == before
                    &&& forall|i: int|
                        0 <= i < batch.len() ==> (#[trigger] after[before.len() + i]).id == Some(
                            (before.len() + i + 1) as i32,
                        ) && after[before.len() + i].pos == batch[i].pos
                },
                Err(_) => after == before,
            }
        }),
{
    let after = rows_after(proteins, before, batch, protein);
    if admission(protein_index(proteins, protein) is Some, batch, before.len()) is Ok {
        assert(after.subrange(0, before.len() as int) =~= before);
    }
}

} // verus!
