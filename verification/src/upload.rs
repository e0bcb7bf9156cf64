//! An upload: the text of a file becomes rows, and the rows a batch of the
//! store, whole or not at all.

use vstd::prelude::*;
use crate::controls::ValidationError;
use crate::ingest::{is_ingest, read_tsv, tsv_header, tsv_records, ParseError};
use crate::model::Variant;
use crate::query::StoreError;
use crate::store::{admission, protein_index, rows_after, VariantStore};

verus! {

/// What was read from an upload: the rows to store under the protein, and
/// the reports on the records that gave no row.
#[derive(Debug)]
pub struct Batch {
    pub protein: String,
    pub rows: Vec<Variant>,
    pub errors: Vec<ParseError>,
}

/// How an upload ended.
#[derive(Clone, Copy, Debug, PartialEq, Eq, Structural)]
pub enum UploadOutcome {
    /// The rows are stored; so many records gave no row.
    Stored { rows: u64, errors: usize },
    /// The request lacked a part; nothing was read.
    Rejected(ValidationError),
    /// The store took nothing of the batch.
    Failed(StoreError),
}

/// How an upload ended, given what the store answered and how many
/// records gave no row.
pub open spec fn outcome_of(admitted: Result<u64, StoreError>, errors: nat) -> UploadOutcome {
    match admitted {
        Ok(count) => UploadOutcome::Stored { rows: count, errors: errors as usize },
        Err(e) => UploadOutcome::Failed(e),
    }
}

/// Says how an upload ended, given what the store answered and how many
/// records gave no row.
pub fn conclude(admitted: Result<u64, StoreError>, errors: usize) -> (outcome: UploadOutcome)
    ensures
        outcome == outcome_of(admitted, errors as nat),
{
    match admitted {
        Ok(count) => UploadOutcome::Stored { rows: count, errors },
        Err(e) => UploadOutcome::Failed(e),
    }
}

/// Reads an upload: the name of a protein and the text of a file. Without
/// either nothing is read. Else every record of the text gives a row
/// under the protein, with the time of the call, or a report.
pub fn read_upload(protein: Option<&str>, file: Option<&[u8]>) -> (read: Result<
    Batch,
    ValidationError,
>)
    ensures
        match read {
            Ok(batch) => {
                &&& protein is Some
                &&& file is Some
                &&& batch.protein@ == protein.unwrap()@
                &&& exists|created_on: i64|
                    is_ingest(
                        batch.rows@,
                        batch.errors@,
                        tsv_header(file.unwrap()@),
                        tsv_records(file.unwrap()@),
                        protein.unwrap()@,
                        created_on,
                    )
            },
            Err(e) => e == if protein is None {
                ValidationError::MissingProtein
            } else {
                ValidationError::MissingFile
            } && (protein is None || file is None),
        },
{
    let name: &str = match protein {
        Some(name) => name,
        None => {
            return Err(ValidationError::MissingProtein);
        },
    };
    let bytes: &[u8] = match file {
        Some(bytes) => bytes,
        None => {
            return Err(ValidationError::MissingFile);
        },
    };
    let (rows, errors) = read_tsv(bytes, name);
    let batch: Batch = Batch { protein: String::from_str(name), rows, errors };
    proof {
        let created_on = choose|created_on: i64|
            is_ingest(
                batch.rows@,
                batch.errors@,
                tsv_header(bytes@),
                tsv_records(bytes@),
                name@,
                created_on,
            );
        assert(is_ingest(
            batch.rows@,
            batch.errors@,
            tsv_header(file.unwrap()@),
            tsv_records(file.unwrap()@),
            protein.unwrap()@,
            created_on,
        ));
    }
    Ok(batch)
}

/// Takes an upload: the name of a protein and the text of a file. Without
/// either nothing happens. Else the text is read, and the rows it gives
/// are offered to the store as one batch.
pub fn upload_file(store: &mut VariantStore, protein: Option<&str>, file: Option<&[u8]>) -> (outcome:
    UploadOutcome)
    requires
        old(store).wf(),
    ensures
        final(store).wf(),
        final(store).proteins() == old(store).proteins(),
        protein is None ==> outcome == UploadOutcome::Rejected(ValidationError::MissingProtein)
            && final(store).rows() == old(store).rows(),
        protein is Some && file is None ==> outcome == UploadOutcome::Rejected(
            ValidationError::MissingFile,
        ) && final(store).rows() == old(store).rows(),
        protein is Some && file is Some ==> exists|
            rows: Seq<Variant>,
            errors: Seq<ParseError>,
            created_on: i64,
        |
            {
                &&& is_ingest(
                    rows,
                    errors,
                    tsv_header(file.unwrap()@),
                    tsv_records(file.unwrap()@),
                    protein.unwrap()@,
                    created_on,
                )
                &&& outcome == outcome_of(
                    admission(
                        protein_index(old(store).proteins(), protein.unwrap()@) is Some,
                        rows,
                        old(store).rows().len(),
                    ),
                    errors.len(),
                )
                &&& final(store).rows() == rows_after(
                    old(store).proteins(),
                    old(store).rows(),
                    rows,
                    protein.unwrap()@,
                )
            },
{
    match read_upload(protein, file) {
        Ok(batch) => {
            let admitted: Result<u64, StoreError> = store.bulk_insert(
                &batch.rows,
                batch.protein.as_str(),
            );
            conclude(admitted, batch.errors.len())
        },
        Err(e) => UploadOutcome::Rejected(e),
    }
}

} // verus!
