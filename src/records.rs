//! Rendering rows and framing them as delimited records.
use vstd::prelude::*;
use crate::dispatch::{CellValue, is_sanitized, render_cell, rendered_cell, sanitizes_column};
use crate::text::views;
use crate::audit::log_line_text;

verus! {

/// The bytes of one delimited record holding `fields`, line break included.
pub uninterp spec fn csv_record(fields: Seq<Seq<char>>, delimiter: u8, always_quote: bool) -> Seq<
    u8,
>;

/// How records are framed: the byte between fields, and whether every field
/// is quoted or only those that need it.
#[derive(Clone, Copy, Debug, PartialEq, Eq, Structural)]
pub struct CsvFormat {
    pub delimiter: u8,
    pub always_quote: bool,
}

/// Relies on csv's `Writer::write_record`, with the delimiter and quote style
/// set by its `WriterBuilder`, over an in-memory buffer that `into_inner`
/// hands back: the bytes depend on the fields and the two settings alone.
/// The first record of a fresh writer sets the field count, and writing to
/// and flushing a `Vec` do not fail, so the result is always present.
#[verifier::external_body]
fn encode_record(fields: &Vec<String>, format: CsvFormat) -> (r: Option<Vec<u8>>)
    ensures
        r.is_some(),
        r matches Some(b) ==> b@ == csv_record(views(fields@), format.delimiter, format.always_quote),
{
    let style = if format.always_quote {
        csv::QuoteStyle::Always
    } else {
        csv::QuoteStyle::Necessary
    };
    let mut writer = csv::WriterBuilder::new().delimiter(format.delimiter).quote_style(
        style,
    ).from_writer(Vec::new());
    match writer.write_record(fields) {
        Ok(()) => writer.into_inner().ok(),
        Err(_) => None,
    }
}

/// The views of rows of text.
pub open spec fn row_views(rows: Seq<Vec<String>>) -> Seq<Seq<Seq<char>>> {
    rows.map_values(|r: Vec<String>| views(r@))
}

/// The records of `rows`, one after another.
pub open spec fn records_bytes(rows: Seq<Seq<Seq<char>>>, format: CsvFormat) -> Seq<u8>
    decreases rows.len(),
{
    if rows.len() == 0 {
        Seq::empty()
    } else {
        records_bytes(rows.drop_last(), format) + csv_record(
            rows.last(),
            format.delimiter,
            format.always_quote,
        )
    }
}

/// The bytes of one output file: the header record, then one record for each
/// row, with nothing after them.
pub open spec fn chunk_bytes(header: Seq<Seq<char>>, rows: Seq<Seq<Seq<char>>>, format: CsvFormat) -> Seq<u8> {
    records_bytes(seq![header] + rows, format)
}

proof fn lemma_records_concat(a: Seq<Seq<Seq<char>>>, b: Seq<Seq<Seq<char>>>, format: CsvFormat)
    ensures
        records_bytes(a + b, format) == records_bytes(a, format) + records_bytes(b, format),
    decreases b.len(),
{
    if b.len() == 0 {
        assert(a + b =~= a);
        assert(records_bytes(a, format) + records_bytes(b, format) =~= records_bytes(a, format));
    } else {
        lemma_records_concat(a, b.drop_last(), format);
        assert((a + b).drop_last() =~= a + b.drop_last());
        assert((a + b).last() == b.last());
        assert(records_bytes(a + b, format) =~= records_bytes(a, format) + records_bytes(b, format));
    }
}

/// Frames rows as records, one after another.
pub fn encode_records(rows: &Vec<Vec<String>>, format: CsvFormat) -> (r: Vec<u8>)
    ensures
        r@ == records_bytes(row_views(rows@), format),
{
    let ghost all = row_views(rows@);
    let mut out: Vec<u8> = Vec::new();
    let mut i: usize = 0;
    while i < rows.len()
        invariant
            i <= rows@.len(),
            all == row_views(rows@),
            out@ == records_bytes(all.subrange(0, i as int), format),
        decreases rows@.len() - i,
    {
        let mut b = match encode_record(&rows[i], format) {
            Some(b) => b,
            None => Vec::new(),
        };
        out.append(&mut b);
        proof {
            assert(all.subrange(0, i + 1).drop_last() =~= all.subrange(0, i as int));
            assert(all.subrange(0, i + 1).last() == views(rows@[i as int]@));
        }
        i = i + 1;
    }
    proof {
        assert(all.subrange(0, i as int) =~= all);
        assert(records_bytes(Seq::<Seq<Seq<char>>>::empty(), format) =~= Seq::<u8>::empty());
    }
    out
}

/// Frames the header and the rows of one output file.
pub fn encode_chunk(header: &Vec<String>, rows: &Vec<Vec<String>>, format: CsvFormat) -> (r: Vec<u8>)
    ensures
        r@ == chunk_bytes(views(header@), row_views(rows@), format),
{
    let mut out = match encode_record(header, format) {
        Some(b) => b,
        None => Vec::new(),
    };
    let mut body = encode_records(rows, format);
    out.append(&mut body);
    proof {
        let h = seq![views(header@)];
        lemma_records_concat(h, row_views(rows@), format);
        assert(h.drop_last() =~= Seq::<Seq<Seq<char>>>::empty());
        assert(records_bytes(Seq::<Seq<Seq<char>>>::empty(), format) =~= Seq::<u8>::empty());
        assert(records_bytes(h, format) =~= csv_record(views(header@), format.delimiter, format.always_quote));
    }
    out
}

/// The canonical texts of a row's cells; `sanitized` marks the columns whose
/// text loses the delimiter.
pub fn render_row(cells: &Vec<CellValue>, sanitized: &Vec<bool>, delimiter: char) -> (r: Vec<String>)
    requires
        cells@.len() == sanitized@.len(),
        forall|i: int| 0 <= i < cells@.len() ==> #[trigger] cells@[i].wf(),
    ensures
        r@.len() == cells@.len(),
        forall|i: int|
            0 <= i < cells@.len() ==> #[trigger] r@[i]@ == rendered_cell(cells@[i], sanitized@[i], delimiter),
{
    let mut r: Vec<String> = Vec::new();
    let mut i: usize = 0;
    while i < cells.len()
        invariant
            i <= cells@.len(),
            cells@.len() == sanitized@.len(),
            forall|k: int| 0 <= k < cells@.len() ==> #[trigger] cells@[k].wf(),
            r@.len() == i,
            forall|k: int| 0 <= k < i ==> #[trigger] r@[k]@ == rendered_cell(cells@[k], sanitized@[k], delimiter),
        decreases cells@.len() - i,
    {
        r.push(render_cell(&cells[i], sanitized[i], delimiter));
        i = i + 1;
    }
    r
}

/// Marks, for each column of a table, whether it is the designated column
/// of the ledger table and loses the delimiter from its text.
pub fn sanitized_columns(designated: &Option<String>, columns: &Vec<String>, is_ledger_table: bool) -> (r: Vec<bool>)
    ensures
        r@.len() == columns@.len(),
        forall|i: int|
            0 <= i < columns@.len() ==> #[trigger] r@[i] == is_sanitized(*designated, columns@[i]@, is_ledger_table),
{
    let mut r: Vec<bool> = Vec::new();
    let mut i: usize = 0;
    while i < columns.len()
        invariant
            i <= columns@.len(),
            r@.len() == i,
            forall|k: int| 0 <= k < i ==> #[trigger] r@[k] == is_sanitized(*designated, columns@[k]@, is_ledger_table),
        decreases columns@.len() - i,
    {
        r.push(sanitizes_column(designated, columns[i].as_str(), is_ledger_table));
        i = i + 1;
    }
    r
}

/// Every file of a table starts with the same header record: a file's bytes
/// are the record of the column names followed by the records of its rows,
/// so two files of one table agree on their first line whatever rows they
/// hold.
pub proof fn law_files_share_header(
    header: Seq<Seq<char>>,
    rows: Seq<Seq<Seq<char>>>,
    other: Seq<Seq<Seq<char>>>,
    format: CsvFormat,
)
    ensures
        chunk_bytes(header, rows, format) == csv_record(header, format.delimiter, format.always_quote)
            + records_bytes(rows, format),
        chunk_bytes(header, rows, format).subrange(
            0,
            csv_record(header, format.delimiter, format.always_quote).len() as int,
        ) == chunk_bytes(header, other, format).subrange(
            0,
            csv_record(header, format.delimiter, format.always_quote).len() as int,
        ),
{
    let h = seq![header];
    let record = csv_record(header, format.delimiter, format.always_quote);
    assert(h.drop_last() =~= Seq::<Seq<Seq<char>>>::empty());
    assert(records_bytes(Seq::<Seq<Seq<char>>>::empty(), format) =~= Seq::<u8>::empty());
    assert(records_bytes(h, format) =~= record);
    lemma_records_concat(h, rows, format);
    lemma_records_concat(h, other, format);
    assert((record + records_bytes(rows, format)).subrange(0, record.len() as int) =~= record);
    assert((record + records_bytes(other, format)).subrange(0, record.len() as int) =~= record);
}

/// Running again over an unchanged source gives the same output: equal
/// column names and rows frame to the same file bytes, and audit lines for
/// the same message differ in their time stamps only.
pub proof fn law_rerun_same_output(
    header: Seq<Seq<char>>,
    rows: Seq<Seq<Seq<char>>>,
    again: Seq<Seq<Seq<char>>>,
    format: CsvFormat,
    stamp: Seq<char>,
    later: Seq<char>,
    message: Seq<char>,
)
    requires
        rows == again,
    ensures
        chunk_bytes(header, rows, format) == chunk_bytes(header, again, format),
        log_line_text(stamp, message).subrange(
            stamp.len() as int,
            log_line_text(stamp, message).len() as int,
        ) == log_line_text(later, message).subrange(
            later.len() as int,
            log_line_text(later, message).len() as int,
        ),
{
    let tail = " => "@ + message + "\n"@;
    assert(log_line_text(stamp, message) =~= stamp + tail);
    assert(log_line_text(later, message) =~= later + tail);
    assert((stamp + tail).subrange(stamp.len() as int, (stamp + tail).len() as int) =~= tail);
    assert((later + tail).subrange(later.len() as int, (later + tail).len() as int) =~= tail);
}

} // verus!
