//! Trusted boundary to the `csv` reader and to the column-aligning writer
//! built from a `csv::Writer` over a `tabwriter::TabWriter` over an
//! in-memory byte buffer.
//!
//! Nothing in this module is verified: each item's contract states what the
//! outside crates' sources show, and the verified pipeline builds on it.

use vstd::prelude::*;

verus! {

/// A CSV writer that buffers rows behind an elastic-tabstop aligner and
/// renders them into an owned byte buffer on `finish_aligned_writer`.
/// It holds a `csv::Writer` over a `tabwriter::TabWriter` over `Vec<u8>`;
/// the stack is opaque here, and the contracts below speak of it through
/// `writer_records`, `writer_delim` and `writer_ok`.
#[verifier::external_body]
pub struct AlignedWriter {
    inner: csv::Writer<tabwriter::TabWriter<Vec<u8>>>,
}

/// What parsing `input` as delimiter-separated records yields: the ordered
/// records, each an ordered sequence of field byte strings, or nothing when
/// the input is malformed (bad quoting, or records of unequal field counts).
pub uninterp spec fn csv_records(input: Seq<u8>, delim: u8) -> Option<Seq<Seq<Seq<u8>>>>;

/// The records an `AlignedWriter` has buffered so far, in writing order.
pub uninterp spec fn writer_records(w: AlignedWriter) -> Seq<Seq<Seq<u8>>>;

/// The field delimiter an `AlignedWriter` was built with.
pub uninterp spec fn writer_delim(w: AlignedWriter) -> u8;

/// Whether the writer holds no half-written row: a rejected record leaves
/// its fields in the row buffer without a terminator, and nothing is
/// promised of such a writer afterwards.
pub uninterp spec fn writer_ok(w: AlignedWriter) -> bool;

/// The byte stream that the csv writer and the column aligner emit for the
/// given records: delimiter-separated rows, one per line, with each column
/// padded to its widest entry.
pub uninterp spec fn aligned_render(records: Seq<Seq<Seq<u8>>>, delim: u8) -> Seq<u8>;

/// All records have the same number of fields.
pub open spec fn equal_field_counts(records: Seq<Seq<Seq<u8>>>) -> bool {
    forall|i: int, j: int|
        0 <= i < records.len() && 0 <= j < records.len() ==> (#[trigger] records[i]).len() == (
        #[trigger] records[j]).len()
}

/// Relies on `csv::ReaderBuilder` and `Reader::into_byte_records`: parsing
/// an in-memory buffer reads those bytes alone and is a function of them and
/// of the delimiter; the first row counts as a record like any other; with
/// flexible parsing off (the default), a record whose field count differs
/// from the earlier records' is reported as an error, so every record of an
/// `Ok` result has the same field count.
#[verifier::external_body]
pub fn parse_records(input: &[u8], delim: u8) -> (r: Result<Vec<Vec<Vec<u8>>>, String>)
    ensures
        match r {
            Ok(records) => csv_records(input@, delim) == Some(records.deep_view())
                && equal_field_counts(records.deep_view()),
            Err(_) => csv_records(input@, delim) is None,
        },
{
    let rdr = csv::ReaderBuilder::new().delimiter(delim).has_headers(false).from_reader(input);
    match rdr.into_byte_records().collect::<Result<Vec<csv::ByteRecord>, csv::Error>>() {
        Ok(raw) => Ok(
            raw.iter().map(|rec| rec.iter().map(|field| field.to_vec()).collect()).collect(),
        ),
        Err(e) => Err(format!("{}", e)),
    }
}

/// Relies on `csv::WriterBuilder::from_writer` and `tabwriter::TabWriter::new`:
/// a fresh writer over an empty buffer has buffered no records.
#[verifier::external_body]
pub fn new_aligned_writer(delim: u8) -> (w: AlignedWriter)
    ensures
        writer_records(w) == Seq::<Seq<Seq<u8>>>::empty(),
        writer_delim(w) == delim,
        writer_ok(w),
{
    AlignedWriter {
        inner: csv::WriterBuilder::new().delimiter(delim).from_writer(
            tabwriter::TabWriter::new(Vec::new()),
        ),
    }
}

/// Relies on `csv::Writer::write_record`: the record is appended to the
/// buffered rows.  Its only failures are an I/O error of the underlying
/// writer — none, since `TabWriter` buffers in memory and `Vec<u8>` never
/// fails to take bytes — and a field count differing from the first written
/// record's, so for a clean writer a matching count succeeds, a differing
/// one fails, and a failure leaves the row buffer without a terminator.
#[verifier::external_body]
pub fn write_aligned_record(w: &mut AlignedWriter, record: &Vec<Vec<u8>>) -> (r: Result<
    (),
    String,
>)
    ensures
        writer_delim(*final(w)) == writer_delim(*old(w)),
        writer_ok(*old(w)) ==> (r is Ok <==> writer_records(*old(w)).len() == 0 || record@.len()
            == writer_records(*old(w))[0].len()),
        writer_ok(*old(w)) && r is Ok ==> writer_ok(*final(w)) && writer_records(*final(w))
            == writer_records(*old(w)).push(record.deep_view()),
{
    w.inner.write_record(record).map_err(|e| format!("{}", e))
}

/// Relies on `csv::Writer::into_inner` and `tabwriter::TabWriter::into_inner`:
/// both flush what they buffered — the aligner pads every column to its
/// widest entry as it drains — and hand the underlying buffer back; with an
/// in-memory buffer neither flush can fail.  The bytes are a function of the
/// buffered records and the delimiter alone.
#[verifier::external_body]
pub fn finish_aligned_writer(w: AlignedWriter) -> (r: Result<Vec<u8>, String>)
    ensures
        r is Ok,
        r matches Ok(out) ==> (writer_ok(w) ==> out@ == aligned_render(
            writer_records(w),
            writer_delim(w),
        )),
{
    match w.inner.into_inner() {
        Ok(tw) => match tw.into_inner() {
            Ok(buf) => Ok(buf),
            Err(e) => Err(format!("{}", e.error())),
        },
        Err(e) => Err(format!("{}", e.error())),
    }
}

} // verus!
