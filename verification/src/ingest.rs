//! Ingestion: tab-separated text with a header line becomes variant rows.
//!
//! The `csv` reader splits the text into records. Which column is which,
//! what a field must hold and what becomes of a record that falls short is
//! decided here. A record that cannot be used is reported and skipped; the
//! others keep their order.

use vstd::prelude::*;
use crate::model::{same_text, texts, Variant, METRIC_SCALE};
use crate::text::{decimal_value, in_i32, parse_decimal, parse_whole, pow10, whole_number};

verus! {

/// Decimal places of a metric as it is held.
pub const METRIC_PLACES: u8 = 9;

/// The header record that the `csv` reader finds in a text, set to tabs as
/// delimiter and to expect a header, field by field; `None` where it
/// reports an error instead.
pub uninterp spec fn tsv_header(bytes: Seq<u8>) -> Option<Seq<Seq<char>>>;

/// What the `csv` reader yields for the records after the header of a
/// text, set to tabs as delimiter, in their order: the fields of a record,
/// or `None` for a record that it reports as an error.
pub uninterp spec fn tsv_records(bytes: Seq<u8>) -> Seq<Option<Seq<Seq<char>>>>;

/// Whether `chrono` reads a text as a date and time without zone.
pub uninterp spec fn is_timestamp(text: Seq<char>) -> bool;

/// The fields of a record by their characters.
pub open spec fn record_view(record: Option<Vec<String>>) -> Option<Seq<Seq<char>>> {
    match record {
        Some(fields) => Some(texts(fields@)),
        None => None,
    }
}

/// Records by the characters of their fields.
pub open spec fn records_view(records: Seq<Option<Vec<String>>>) -> Seq<Option<Seq<Seq<char>>>> {
    Seq::new(records.len(), |i: int| record_view(records[i]))
}

/// Calls `csv::Reader::headers` on a reader over `bytes` that is set to
/// tabs as delimiter and to expect a header. Trusted: the result is the
/// header record of the text as the `csv` crate reads it, an error of the
/// reader becoming `None`.
#[verifier::external_body]
fn read_header(bytes: &[u8]) -> (header: Option<Vec<String>>)
    ensures
        record_view(header) == tsv_header(bytes@),
{
    let mut reader = csv::ReaderBuilder::new().delimiter(b'\t').has_headers(true).from_reader(bytes);
    match reader.headers() {
        Ok(record) => Some(record.iter().map(String::from).collect()),
        Err(_) => None,
    }
}

/// Calls `csv::Reader::records` on a reader over `bytes` that is set to
/// tabs as delimiter and to expect a header, and walks it to its end.
/// Trusted: the result is what that iterator yields, in its order, an
/// error of the reader becoming `None`.
#[verifier::external_body]
fn read_records(bytes: &[u8]) -> (records: Vec<Option<Vec<String>>>)
    ensures
        records_view(records@) == tsv_records(bytes@),
{
    let mut reader = csv::ReaderBuilder::new().delimiter(b'\t').has_headers(true).from_reader(bytes);
    let mut records = Vec::new();
    for item in reader.records() {
        records.push(match item {
            Ok(record) => Some(record.iter().map(String::from).collect()),
            Err(_) => None,
        });
    }
    records
}

/// Calls `str::parse` for `chrono::NaiveDateTime`. Trusted: the result
/// says whether `chrono` accepted the text.
#[verifier::external_body]
fn reads_as_timestamp(text: &str) -> (accepted: bool)
    ensures
        accepted == is_timestamp(text@),
{
    text.parse::<chrono::NaiveDateTime>().is_ok()
}

/// Calls `chrono::Utc::now`. Trusted: nothing; the result is the time of
/// the call in microseconds since the Unix epoch, which no contract can
/// foretell.
#[verifier::external_body]
fn default_timestamp() -> (micros: i64) {
    chrono::Utc::now().naive_utc().and_utc().timestamp_micros()
}

/// The columns a row is read from.
#[derive(Clone, Copy, Debug, PartialEq, Eq, Structural)]
pub enum Column {
    Id,
    Chunk,
    Pos,
    Condition,
    Aa,
    Log2FoldChange,
    Log2StdError,
    Statistic,
    PValue,
    Version,
    Protein,
    CreatedOn,
}

/// Why a record gave no row.
#[derive(Clone, Copy, Debug, PartialEq, Eq, Structural)]
pub enum ParseErrorKind {
    /// The reader could not read the record, or the header before it, or
    /// the record has not as many fields as the header.
    Unreadable,
    /// The header names the column twice.
    Duplicate(Column),
    /// The field of the column does not hold what the column asks for.
    Invalid(Column),
    /// The header lacks a column that every row needs.
    Missing(Column),
}

/// A record that gave no row: its place among the records after the
/// header, counted from 0, and the reason.
#[derive(Clone, Copy, Debug, PartialEq, Eq, Structural)]
pub struct ParseError {
    pub record: usize,
    pub kind: ParseErrorKind,
}

/// The column a header field names. The fold change, its standard error
/// and the p-value go by a second name as well, and so does the time of
/// creation. Any other name is no column, and its fields are passed over.
pub open spec fn column_of(name: Seq<char>) -> Option<Column> {
    if name == "id"@ {
        Some(Column::Id)
    } else if name == "chunk"@ {
        Some(Column::Chunk)
    } else if name == "pos"@ {
        Some(Column::Pos)
    } else if name == "condition"@ {
        Some(Column::Condition)
    } else if name == "aa"@ {
        Some(Column::Aa)
    } else if name == "log2_fold_change"@ || name == "log2FoldChange"@ {
        Some(Column::Log2FoldChange)
    } else if name == "log2_std_error"@ || name == "log2StdError"@ {
        Some(Column::Log2StdError)
    } else if name == "statistic"@ {
        Some(Column::Statistic)
    } else if name == "p_value"@ || name == "p.value"@ {
        Some(Column::PValue)
    } else if name == "version"@ {
        Some(Column::Version)
    } else if name == "protein"@ {
        Some(Column::Protein)
    } else if name == "created_on"@ || name == "created_at"@ {
        Some(Column::CreatedOn)
    } else {
        None
    }
}

/// The columns that the fields of a header name, field by field.
pub open spec fn columns_of(header: Seq<Seq<char>>) -> Seq<Option<Column>> {
    Seq::new(header.len(), |c: int| column_of(header[c]))
}

/// The whole number of 32 bits a field writes: in decimal digits, or
/// after `0x` in hexadecimal ones.
pub open spec fn whole_value(text: Seq<char>) -> Option<i32> {
    in_i32(whole_number(text))
}

/// The metric a text writes, as it is held.
pub open spec fn metric_value(text: Seq<char>) -> Option<i64> {
    match decimal_value(text, METRIC_PLACES as int, i64::MAX as int) {
        Some(v) => Some(v as i64),
        None => None,
    }
}

/// Whether a field holds what its column asks for: a whole number for the
/// chunk and the position, and for the id unless the field is empty; a
/// decimal number for a metric; a date and time for the time of creation;
/// anything for the others.
pub open spec fn value_ok(column: Column, text: Seq<char>) -> bool {
    match column {
        Column::Id => text.len() == 0 || whole_value(text) is Some,
        Column::Chunk | Column::Pos => whole_value(text) is Some,
        Column::Log2FoldChange | Column::Log2StdError | Column::Statistic | Column::PValue =>
            metric_value(text) is Some,
        Column::CreatedOn => is_timestamp(text),
        Column::Condition | Column::Aa | Column::Version | Column::Protein => true,
    }
}

/// The first of the first `n` fields of a header that names `column`.
pub open spec fn column_index_upto(columns: Seq<Option<Column>>, column: Column, n: nat) -> Option<
    int,
>
    decreases n,
{
    if n == 0 {
        None
    } else {
        match column_index_upto(columns, column, (n - 1) as nat) {
            Some(c) => Some(c),
            None => if columns[n - 1] == Some(column) {
                Some(n - 1)
            } else {
                None
            },
        }
    }
}

/// The first field of a header that names `column`.
pub open spec fn column_index(columns: Seq<Option<Column>>, column: Column) -> Option<int> {
    column_index_upto(columns, column, columns.len())
}

/// What is wrong with the field at `c`, if anything: its column was named
/// before, or the field does not hold what the column asks for. A field
/// under a name that is no column is never wrong.
pub open spec fn fault_at(columns: Seq<Option<Column>>, fields: Seq<Seq<char>>, c: int) -> Option<
    ParseErrorKind,
> {
    match columns[c] {
        Some(column) => if column_index(columns, column) != Some(c) {
            Some(ParseErrorKind::Duplicate(column))
        } else if !value_ok(column, fields[c]) {
            Some(ParseErrorKind::Invalid(column))
        } else {
            None
        },
        None => None,
    }
}

/// What is wrong with the first of the first `n` fields that has a fault.
pub open spec fn fault_upto(columns: Seq<Option<Column>>, fields: Seq<Seq<char>>, n: nat)
    -> Option<ParseErrorKind>
    decreases n,
{
    if n == 0 {
        None
    } else {
        match fault_upto(columns, fields, (n - 1) as nat) {
            Some(kind) => Some(kind),
            None => fault_at(columns, fields, n - 1),
        }
    }
}

/// The columns that every row needs, in the order in which they are asked
/// for.
pub open spec fn required() -> Seq<Column> {
    seq![
        Column::Chunk,
        Column::Pos,
        Column::Condition,
        Column::Aa,
        Column::Log2FoldChange,
        Column::Log2StdError,
        Column::Statistic,
        Column::PValue,
        Column::Version,
    ]
}

/// The first of the first `n` needed columns that a header lacks.
pub open spec fn missing_upto(columns: Seq<Option<Column>>, n: nat) -> Option<Column>
    decreases n,
{
    if n == 0 {
        None
    } else {
        match missing_upto(columns, (n - 1) as nat) {
            Some(column) => Some(column),
            None => if column_index(columns, required()[n - 1]) is None {
                Some(required()[n - 1])
            } else {
                None
            },
        }
    }
}

/// Why a record with these fields under these columns gives no row, if it
/// gives none: it has not as many fields as the header; else the first
/// fault among its fields; else the first needed column that is lacking.
pub open spec fn row_fault(columns: Seq<Option<Column>>, fields: Seq<Seq<char>>) -> Option<
    ParseErrorKind,
> {
    if fields.len() != columns.len() {
        Some(ParseErrorKind::Unreadable)
    } else {
        match fault_upto(columns, fields, columns.len()) {
            Some(kind) => Some(kind),
            None => match missing_upto(columns, 9) {
                Some(column) => Some(ParseErrorKind::Missing(column)),
                None => None,
            },
        }
    }
}

/// Why a record gives no row under a header, if it gives none. Without a
/// header, and where the reader rejected the record, it is unreadable.
pub open spec fn outcome(header: Option<Seq<Seq<char>>>, record: Option<Seq<Seq<char>>>) -> Option<
    ParseErrorKind,
> {
    match (header, record) {
        (Some(names), Some(fields)) => row_fault(columns_of(names), fields),
        _ => Some(ParseErrorKind::Unreadable),
    }
}

/// The field of a record under a column that the header names.
pub open spec fn field_of(columns: Seq<Option<Column>>, fields: Seq<Seq<char>>, column: Column)
    -> Seq<char> {
    fields[column_index(columns, column).unwrap()]
}

/// Whether `row` is the row of a record: every field read from its column,
/// the id absent where the header has no such column or the field is empty,
/// and protein and time of creation as the caller gave them, whatever the
/// record holds.
pub open spec fn is_parsed_row(
    row: Variant,
    columns: Seq<Option<Column>>,
    fields: Seq<Seq<char>>,
    protein: Seq<char>,
    created_on: i64,
) -> bool {
    &&& row.id == match column_index(columns, Column::Id) {
        Some(c) => whole_value(fields[c]),
        None => None,
    }
    &&& Some(row.chunk) == whole_value(field_of(columns, fields, Column::Chunk))
    &&& Some(row.pos) == whole_value(field_of(columns, fields, Column::Pos))
    &&& row.condition@ == field_of(columns, fields, Column::Condition)
    &&& row.aa@ == field_of(columns, fields, Column::Aa)
    &&& Some(row.log2_fold_change) == metric_value(
        field_of(columns, fields, Column::Log2FoldChange),
    )
    &&& Some(row.log2_std_error) == metric_value(field_of(columns, fields, Column::Log2StdError))
    &&& Some(row.statistic) == metric_value(field_of(columns, fields, Column::Statistic))
    &&& Some(row.p_value) == metric_value(field_of(columns, fields, Column::PValue))
    &&& row.version@ == field_of(columns, fields, Column::Version)
    &&& row.protein@ == protein
    &&& row.created_on == created_on
}

/// The reports on the first `n` records, in their order.
pub open spec fn errors_upto(
    header: Option<Seq<Seq<char>>>,
    records: Seq<Option<Seq<Seq<char>>>>,
    n: nat,
) -> Seq<ParseError>
    decreases n,
{
    if n == 0 {
        Seq::empty()
    } else {
        let earlier = errors_upto(header, records, (n - 1) as nat);
        match outcome(header, records[n - 1]) {
            Some(kind) => earlier.push(ParseError { record: (n - 1) as usize, kind }),
            None => earlier,
        }
    }
}

/// Which of the first `n` records give a row, in their order.
pub open spec fn kept_upto(
    header: Option<Seq<Seq<char>>>,
    records: Seq<Option<Seq<Seq<char>>>>,
    n: nat,
) -> Seq<int>
    decreases n,
{
    if n == 0 {
        Seq::empty()
    } else {
        let earlier = kept_upto(header, records, (n - 1) as nat);
        match outcome(header, records[n - 1]) {
            Some(_) => earlier,
            None => earlier.push(n - 1),
        }
    }
}

/// Whether `rows` and `errors` are what a header and records give: a row
/// for every record without fault and a report for every other, both in
/// the order of the records.
pub open spec fn is_ingest(
    rows: Seq<Variant>,
    errors: Seq<ParseError>,
    header: Option<Seq<Seq<char>>>,
    records: Seq<Option<Seq<Seq<char>>>>,
    protein: Seq<char>,
    created_on: i64,
) -> bool {
    &&& errors == errors_upto(header, records, records.len())
    &&& rows.len() == kept_upto(header, records, records.len()).len()
    &&& forall|k: int|
        0 <= k < rows.len() ==> is_parsed_row(
            #[trigger] rows[k],
            columns_of(header.unwrap()),
            records[kept_upto(header, records, records.len())[k]].unwrap(),
            protein,
            created_on,
        )
}

/// The column a header field names.
pub fn column_named(name: &String) -> (column: Option<Column>)
    ensures
        column == column_of(name@),
{
    if same_text(name, "id") {
        Some(Column::Id)
    } else if same_text(name, "chunk") {
        Some(Column::Chunk)
    } else if same_text(name, "pos") {
        Some(Column::Pos)
    } else if same_text(name, "condition") {
        Some(Column::Condition)
    } else if same_text(name, "aa") {
        Some(Column::Aa)
    } else if same_text(name, "log2_fold_change") || same_text(name, "log2FoldChange") {
        Some(Column::Log2FoldChange)
    } else if same_text(name, "log2_std_error") || same_text(name, "log2StdError") {
        Some(Column::Log2StdError)
    } else if same_text(name, "statistic") {
        Some(Column::Statistic)
    } else if same_text(name, "p_value") || same_text(name, "p.value") {
        Some(Column::PValue)
    } else if same_text(name, "version") {
        Some(Column::Version)
    } else if same_text(name, "protein") {
        Some(Column::Protein)
    } else if same_text(name, "created_on") || same_text(name, "created_at") {
        Some(Column::CreatedOn)
    } else {
        None
    }
}

/// The columns that the fields of a header name.
pub fn header_columns(header: &Vec<String>) -> (columns: Vec<Option<Column>>)
    ensures
        columns@ == columns_of(texts(header@)),
{
    let mut columns: Vec<Option<Column>> = Vec::new();
    let mut c: usize = 0;
    while c < header.len()
        invariant
            c <= header.len(),
            columns@.len() == c,
            forall|j: int| 0 <= j < c ==> columns@[j] == column_of(#[trigger] header@[j]@),
        decreases header.len() - c,
    {
        columns.push(column_named(&header[c]));
        c = c + 1;
    }
    proof {
        assert(columns@ =~= columns_of(texts(header@)));
    }
    columns
}

/// `column_index_upto` is the least index below `n` that names the column.
pub proof fn lemma_column_index_upto(columns: Seq<Option<Column>>, column: Column, n: nat)
    requires
        n <= columns.len(),
    ensures
        column_index_upto(columns, column, n) matches Some(c) ==> 0 <= c < n && columns[c] == Some(
            column,
        ) && column_index_upto(columns, column, c as nat) is None,
        column_index_upto(columns, column, n) is None ==> forall|j: int|
            0 <= j < n ==> #[trigger] columns[j] != Some(column),
    decreases n,
{
    if n > 0 {
        lemma_column_index_upto(columns, column, (n - 1) as nat);
    }
}

/// A match at `c` with none before it is what the search finds, however
/// far it looks.
proof fn lemma_column_found(columns: Seq<Option<Column>>, column: Column, c: nat, n: nat)
    requires
        c < n <= columns.len(),
        column_index_upto(columns, column, c) is None,
        columns[c as int] == Some(column),
    ensures
        column_index_upto(columns, column, n) == Some(c as int),
    decreases n,
{
    if n > c + 1 {
        lemma_column_found(columns, column, c, (n - 1) as nat);
    }
}

/// The first field of a header that names `column`.
pub fn find_column(columns: &Vec<Option<Column>>, column: Column) -> (found: Option<usize>)
    ensures
        found matches Some(c) ==> c < columns.len() && column_index(columns@, column) == Some(
            c as int,
        ),
        found is None ==> column_index(columns@, column) is None,
{
    let mut c: usize = 0;
    while c < columns.len()
        invariant
            c <= columns.len(),
            column_index_upto(columns@, column, c as nat) is None,
        decreases columns.len() - c,
    {
        let here: bool = match columns[c] {
            Some(named) => named == column,
            None => false,
        };
        if here {
            proof {
                lemma_column_found(columns@, column, c as nat, columns@.len());
            }
            return Some(c);
        }
        c = c + 1;
    }
    None
}

/// Decides [`value_ok`].
pub fn is_value_ok(column: Column, text: &str) -> (ok: bool)
    ensures
        ok == value_ok(column, text@),
{
    match column {
        Column::Id => text.unicode_len() == 0 || parse_whole(text).is_some(),
        Column::Chunk | Column::Pos => parse_whole(text).is_some(),
        Column::Log2FoldChange | Column::Log2StdError | Column::Statistic | Column::PValue =>
            parse_decimal(text, METRIC_PLACES).is_some(),
        Column::CreatedOn => reads_as_timestamp(text),
        Column::Condition | Column::Aa | Column::Version | Column::Protein => true,
    }
}

/// The first fault among the fields of a record.
fn find_fault(columns: &Vec<Option<Column>>, fields: &Vec<String>) -> (fault: Option<
    ParseErrorKind,
>)
    requires
        fields.len() == columns.len(),
    ensures
        fault == fault_upto(columns@, texts(fields@), columns@.len()),
{
    let mut c: usize = 0;
    while c < columns.len()
        invariant
            c <= columns.len(),
            fields.len() == columns.len(),
            fault_upto(columns@, texts(fields@), c as nat) is None,
        decreases columns.len() - c,
    {
        match columns[c] {
            Some(column) => {
                let first: Option<usize> = find_column(columns, column);
                let repeated: bool = match first {
                    Some(at) => at != c,
                    None => true,
                };
                if repeated {
                    proof {
                        lemma_fault_found(
                            columns@,
                            texts(fields@),
                            c as nat,
                            columns@.len(),
                        );
                    }
                    return Some(ParseErrorKind::Duplicate(column));
                }
                if !is_value_ok(column, fields[c].as_str()) {
                    proof {
                        lemma_fault_found(
                            columns@,
                            texts(fields@),
                            c as nat,
                            columns@.len(),
                        );
                    }
                    return Some(ParseErrorKind::Invalid(column));
                }
            },
            None => {},
        }
        c = c + 1;
    }
    None
}

/// A fault at `c` with none before it is what the search finds, however
/// far it looks.
proof fn lemma_fault_found(columns: Seq<Option<Column>>, fields: Seq<Seq<char>>, c: nat, n: nat)
    requires
        c < n,
        fault_upto(columns, fields, c) is None,
        fault_at(columns, fields, c as int) is Some,
    ensures
        fault_upto(columns, fields, n) == fault_at(columns, fields, c as int),
    decreases n,
{
    if n > c + 1 {
        lemma_fault_found(columns, fields, c, (n - 1) as nat);
    }
}

/// Without a fault among the first `n` fields, none of them has one.
proof fn lemma_no_fault(columns: Seq<Option<Column>>, fields: Seq<Seq<char>>, n: nat, c: int)
    requires
        fault_upto(columns, fields, n) is None,
        0 <= c < n,
    ensures
        fault_at(columns, fields, c) is None,
    decreases n,
{
    if c < n - 1 {
        lemma_no_fault(columns, fields, (n - 1) as nat, c);
    }
}

/// The needed column at place `k` of [`required`].
fn required_column(k: usize) -> (column: Column)
    requires
        k < 9,
    ensures
        column == required()[k as int],
{
    if k == 0 {
        Column::Chunk
    } else if k == 1 {
        Column::Pos
    } else if k == 2 {
        Column::Condition
    } else if k == 3 {
        Column::Aa
    } else if k == 4 {
        Column::Log2FoldChange
    } else if k == 5 {
        Column::Log2StdError
    } else if k == 6 {
        Column::Statistic
    } else if k == 7 {
        Column::PValue
    } else {
        Column::Version
    }
}

/// The first needed column that a header lacks.
pub fn find_missing(columns: &Vec<Option<Column>>) -> (missing: Option<Column>)
    ensures
        missing == missing_upto(columns@, 9),
{
    let mut k: usize = 0;
    while k < 9
        invariant
            k <= 9,
            missing_upto(columns@, k as nat) is None,
        decreases 9 - k,
    {
        let column: Column = required_column(k);
        if find_column(columns, column).is_none() {
            proof {
                lemma_missing_found(columns@, k as nat, 9);
            }
            return Some(column);
        }
        k = k + 1;
    }
    None
}

/// A lacking column at place `k` with none before it is what the search
/// finds, however far it looks.
proof fn lemma_missing_found(columns: Seq<Option<Column>>, k: nat, n: nat)
    requires
        k < n <= 9,
        missing_upto(columns, k) is None,
        column_index(columns, required()[k as int]) is None,
    ensures
        missing_upto(columns, n) == Some(required()[k as int]),
    decreases n,
{
    if n > k + 1 {
        lemma_missing_found(columns, k, (n - 1) as nat);
    }
}

/// Without a lacking column among the first `n` needed ones, the header
/// names each of them.
proof fn lemma_none_missing(columns: Seq<Option<Column>>, n: nat, k: int)
    requires
        missing_upto(columns, n) is None,
        0 <= k < n <= 9,
    ensures
        column_index(columns, required()[k]) is Some,
    decreases n,
{
    if k < n - 1 {
        lemma_none_missing(columns, (n - 1) as nat, k);
    }
}

/// The field of a record under a column that the header names and no
/// field of which has a fault.
fn field<'a>(columns: &Vec<Option<Column>>, fields: &'a Vec<String>, column: Column) -> (text:
    &'a String)
    requires
        fields.len() == columns.len(),
        column_index(columns@, column) is Some,
        fault_upto(columns@, texts(fields@), columns@.len()) is None,
    ensures
        text@ == field_of(columns@, texts(fields@), column),
        value_ok(column, text@),
{
    let c: usize = find_column(columns, column).unwrap();
    proof {
        lemma_no_fault(columns@, texts(fields@), columns@.len(), c as int);
        lemma_column_index_upto(columns@, column, columns@.len());
    }
    &fields[c]
}

/// Reads one record under the columns of the header: the row, or the
/// reason why there is none.
pub fn parse_record(
    columns: &Vec<Option<Column>>,
    fields: &Vec<String>,
    protein: &str,
    created_on: i64,
) -> (row: Result<Variant, ParseErrorKind>)
    ensures
        match row {
            Ok(parsed) => row_fault(columns@, texts(fields@)) is None && is_parsed_row(
                parsed,
                columns@,
                texts(fields@),
                protein@,
                created_on,
            ),
            Err(kind) => row_fault(columns@, texts(fields@)) == Some(kind),
        },
{
    if fields.len() != columns.len() {
        return Err(ParseErrorKind::Unreadable);
    }
    match find_fault(columns, fields) {
        Some(kind) => {
            return Err(kind);
        },
        None => {},
    }
    match find_missing(columns) {
        Some(column) => {
            return Err(ParseErrorKind::Missing(column));
        },
        None => {},
    }
    proof {
        lemma_none_missing(columns@, 9, 0);
        lemma_none_missing(columns@, 9, 1);
        lemma_none_missing(columns@, 9, 2);
        lemma_none_missing(columns@, 9, 3);
        lemma_none_missing(columns@, 9, 4);
        lemma_none_missing(columns@, 9, 5);
        lemma_none_missing(columns@, 9, 6);
        lemma_none_missing(columns@, 9, 7);
        lemma_none_missing(columns@, 9, 8);
    }
    let id: Option<i32> = match find_column(columns, Column::Id) {
        Some(c) => parse_whole(fields[c].as_str()),
        None => None,
    };
    let chunk: Option<i32> = parse_whole(field(columns, fields, Column::Chunk).as_str());
    let pos: Option<i32> = parse_whole(field(columns, fields, Column::Pos).as_str());
    let log2_fold_change: Option<i64> = parse_decimal(
        field(columns, fields, Column::Log2FoldChange).as_str(),
        METRIC_PLACES,
    );
    let log2_std_error: Option<i64> = parse_decimal(
        field(columns, fields, Column::Log2StdError).as_str(),
        METRIC_PLACES,
    );
    let statistic: Option<i64> = parse_decimal(
        field(columns, fields, Column::Statistic).as_str(),
        METRIC_PLACES,
    );
    let p_value: Option<i64> = parse_decimal(
        field(columns, fields, Column::PValue).as_str(),
        METRIC_PLACES,
    );
    Ok(
        Variant {
            id,
            chunk: chunk.unwrap(),
            pos: pos.unwrap(),
            condition: field(columns, fields, Column::Condition).clone(),
            aa: field(columns, fields, Column::Aa).clone(),
            log2_fold_change: log2_fold_change.unwrap(),
            log2_std_error: log2_std_error.unwrap(),
            statistic: statistic.unwrap(),
            p_value: p_value.unwrap(),
            version: field(columns, fields, Column::Version).clone(),
            protein: String::from_str(protein),
            created_on,
        },
    )
}

/// Turns a header and the records after it into rows and reports. Every
/// row bears `protein` and `created_on`, whatever its record says.
pub fn rows_from_records(
    header: &Option<Vec<String>>,
    records: &Vec<Option<Vec<String>>>,
    protein: &str,
    created_on: i64,
) -> (out: (Vec<Variant>, Vec<ParseError>))
    ensures
        is_ingest(
            out.0@,
            out.1@,
            record_view(*header),
            records_view(records@),
            protein@,
            created_on,
        ),
{
    let ghost names = record_view(*header);
    let ghost items = records_view(records@);
    let columns: Vec<Option<Column>> = match header {
        Some(fields) => header_columns(fields),
        None => Vec::new(),
    };
    let mut rows: Vec<Variant> = Vec::new();
    let mut errors: Vec<ParseError> = Vec::new();
    let mut i: usize = 0;
    while i < records.len()
        invariant
            i <= records.len(),
            names == record_view(*header),
            items == records_view(records@),
            header matches Some(fields) ==> columns@ == columns_of(texts(fields@)),
            errors@ == errors_upto(names, items, i as nat),
            rows@.len() == kept_upto(names, items, i as nat).len(),
            forall|k: int|
                0 <= k < rows@.len() ==> 0 <= (#[trigger] kept_upto(names, items, i as nat)[k])
                    < i,
            forall|k: int|
                0 <= k < rows@.len() ==> is_parsed_row(
                    #[trigger] rows@[k],
                    columns_of(names.unwrap()),
                    items[kept_upto(names, items, i as nat)[k]].unwrap(),
                    protein@,
                    created_on,
                ),
        decreases records.len() - i,
    {
        let result: Result<Variant, ParseErrorKind> = match (header, &records[i]) {
            (Some(_), Some(fields)) => parse_record(&columns, fields, protein, created_on),
            _ => Err(ParseErrorKind::Unreadable),
        };
        proof {
            assert(items[i as int] == record_view(records@[i as int]));
        }
        match result {
            Ok(row) => {
                rows.push(row);
            },
            Err(kind) => {
                errors.push(ParseError { record: i, kind });
            },
        }
        i = i + 1;
    }
    (rows, errors)
}

/// Reads tab-separated text with a header line into rows that bear
/// `protein` and `created_on`, and reports on the records that gave none.
pub fn read_tsv_at(file_contents: &[u8], protein: &str, created_on: i64) -> (out: (
    Vec<Variant>,
    Vec<ParseError>,
))
    ensures
        is_ingest(
            out.0@,
            out.1@,
            tsv_header(file_contents@),
            tsv_records(file_contents@),
            protein@,
            created_on,
        ),
{
    let header: Option<Vec<String>> = read_header(file_contents);
    let records: Vec<Option<Vec<String>>> = read_records(file_contents);
    rows_from_records(&header, &records, protein, created_on)
}

/// Reads tab-separated text with a header line into rows that bear
/// `protein` and, all of them, the time of the call, and reports on the
/// records that gave none.
pub fn read_tsv(file_contents: &[u8], protein: &str) -> (out: (Vec<Variant>, Vec<ParseError>))
    ensures
        exists|created_on: i64|
            is_ingest(
                out.0@,
                out.1@,
                tsv_header(file_contents@),
                tsv_records(file_contents@),
                protein@,
                created_on,
            ),
{
    let created_on: i64 = default_timestamp();
    read_tsv_at(file_contents, protein, created_on)
}

/// Every record gives a row or a report, never both and never neither,
/// and both rows and reports keep the order of the records: no record
/// holds up the ones after it.
pub proof fn lemma_every_record_counts(
    header: Option<Seq<Seq<char>>>,
    records: Seq<Option<Seq<Seq<char>>>>,
    n: nat,
)
    requires
        n <= records.len(),
        n <= usize::MAX,
    ensures
        kept_upto(header, records, n).len() + errors_upto(header, records, n).len() == n,
        forall|k: int|
            0 <= k < kept_upto(header, records, n).len() ==> {
                let i = #[trigger] kept_upto(header, records, n)[k];
                0 <= i < n && outcome(header, records[i]) is None
            },
        forall|k: int, l: int|
            0 <= k < l < kept_upto(header, records, n).len() ==> (#[trigger] kept_upto(
                header,
                records,
                n,
            )[k]) < (#[trigger] kept_upto(header, records, n)[l]),
        forall|k: int|
            0 <= k < errors_upto(header, records, n).len() ==> {
                let report = #[trigger] errors_upto(header, records, n)[k];
                report.record < n && outcome(header, records[report.record as int]) == Some(
                    report.kind,
                )
            },
        forall|k: int, l: int|
            0 <= k < l < errors_upto(header, records, n).len() ==> (#[trigger] errors_upto(
                header,
                records,
                n,
            )[k]).record < (#[trigger] errors_upto(header, records, n)[l]).record,
    decreases n,
{
    if n > 0 {
        lemma_every_record_counts(header, records, (n - 1) as nat);
    }
}

/// The places of a metric are those of its scale: a metric as it is held
/// counts parts of one in ten to the power of the places.
pub proof fn lemma_metric_scale()
    ensures
        pow10(METRIC_PLACES as nat) == METRIC_SCALE,
{
    reveal_with_fuel(pow10, 10);
}

} // verus!
