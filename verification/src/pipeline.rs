//! The streaming transform: canonicalize the header record, pass every data
//! record through untouched, and emit the rows through the column-aligning
//! writer.

use vstd::prelude::*;

use crate::convert::convert;
use crate::convert::convert_spec;
use crate::csvio::aligned_render;
use crate::csvio::csv_records;
use crate::csvio::equal_field_counts;
use crate::csvio::finish_aligned_writer;
use crate::csvio::new_aligned_writer;
use crate::csvio::parse_records;
use crate::csvio::write_aligned_record;
use crate::csvio::writer_delim;
use crate::csvio::writer_ok;
use crate::csvio::writer_records;

verus! {

/// Every field of a header record, converted to its canonical name.
pub open spec fn convert_all(record: Seq<Seq<u8>>) -> Seq<Seq<u8>> {
    record.map_values(|f: Seq<u8>| convert_spec(f))
}

/// What the pipeline does to a record stream: the first record's fields are
/// canonicalized, every later record is left as it came.
pub open spec fn transform_spec(records: Seq<Seq<Seq<u8>>>) -> Seq<Seq<Seq<u8>>> {
    if records.len() == 0 {
        records
    } else {
        records.update(0, convert_all(records[0]))
    }
}

/// Law: the transform keeps the number of records, and each record's field
/// count.
pub proof fn lemma_transform_preserves_shape(records: Seq<Seq<Seq<u8>>>)
    ensures
        transform_spec(records).len() == records.len(),
        forall|i: int|
            0 <= i < records.len() ==> (#[trigger] transform_spec(records)[i]).len()
                == records[i].len(),
{
    if records.len() > 0 {
        assert(convert_all(records[0]).len() == records[0].len());
    }
}

/// Law: the transform is positional — every record after the first is passed
/// through unchanged, and the first becomes its fieldwise conversion.
pub proof fn lemma_transform_positional(records: Seq<Seq<Seq<u8>>>)
    ensures
        forall|i: int| 1 <= i < records.len() ==> #[trigger] transform_spec(records)[i]
            == records[i],
        records.len() > 0 ==> transform_spec(records)[0] == convert_all(records[0]),
        records.len() > 0 ==> forall|j: int|
            0 <= j < records[0].len() ==> #[trigger] transform_spec(records)[0][j] == convert_spec(
                records[0][j],
            ),
{
}

fn copy_field(field: &Vec<u8>) -> (r: Vec<u8>)
    ensures
        r@ == field@,
{
    let mut r: Vec<u8> = Vec::new();
    let mut j: usize = 0;
    while j < field.len()
        invariant
            j <= field@.len(),
            r@ == field@.subrange(0, j as int),
        decreases field@.len() - j,
    {
        r.push(field[j]);
        assert(r@ =~= field@.subrange(0, j + 1));
        j = j + 1;
    }
    assert(r@ =~= field@);
    r
}

fn copy_record(record: &Vec<Vec<u8>>) -> (r: Vec<Vec<u8>>)
    ensures
        r.deep_view() == record.deep_view(),
{
    let mut r: Vec<Vec<u8>> = Vec::new();
    let mut j: usize = 0;
    while j < record.len()
        invariant
            j <= record@.len(),
            r@.len() == j,
            forall|k: int| 0 <= k < j ==> #[trigger] r.deep_view()[k] == record.deep_view()[k],
        decreases record@.len() - j,
    {
        let ghost prev_view = r@;
        let ghost prev_deep = r.deep_view();
        let field = copy_field(&record[j]);
        proof {
            assert(field.deep_view() =~= record@[j as int].deep_view());
        }
        r.push(field);
        proof {
            assert forall|k: int| 0 <= k < j + 1 implies #[trigger] r.deep_view()[k]
                == record.deep_view()[k] by {
                assert(r.deep_view()[k] == r@[k].deep_view());
                if k < j {
                    assert(r@[k] == prev_view[k]);
                    assert(prev_deep[k] == prev_view[k].deep_view());
                } else {
                    assert(r@[k] == field);
                }
            }
        }
        j = j + 1;
    }
    assert(r.deep_view() =~= record.deep_view());
    r
}

fn convert_record(record: &Vec<Vec<u8>>) -> (r: Vec<Vec<u8>>)
    ensures
        r.deep_view() == convert_all(record.deep_view()),
{
    let mut r: Vec<Vec<u8>> = Vec::new();
    let mut j: usize = 0;
    while j < record.len()
        invariant
            j <= record@.len(),
            r@.len() == j,
            forall|k: int| 0 <= k < j ==> #[trigger] r.deep_view()[k] == convert_spec(
                record.deep_view()[k],
            ),
        decreases record@.len() - j,
    {
        let ghost prev_view = r@;
        let ghost prev_deep = r.deep_view();
        let field = convert(record[j].as_slice());
        proof {
            assert(field.deep_view() =~= field@);
            assert(record@[j as int].deep_view() =~= record@[j as int]@);
            assert(field.deep_view() == convert_spec(record@[j as int].deep_view()));
        }
        r.push(field);
        proof {
            assert forall|k: int| 0 <= k < j + 1 implies #[trigger] r.deep_view()[k]
                == convert_spec(record.deep_view()[k]) by {
                assert(r.deep_view()[k] == r@[k].deep_view());
                if k < j {
                    assert(r@[k] == prev_view[k]);
                    assert(prev_deep[k] == prev_view[k].deep_view());
                } else {
                    assert(r@[k] == field);
                }
            }
        }
        j = j + 1;
    }
    assert(r.deep_view() =~= convert_all(record.deep_view()));
    r
}

/// Canonicalize the header record of a parsed stream: the first record's
/// fields are converted, every later record is copied through unchanged.
pub fn transform_records(records: &Vec<Vec<Vec<u8>>>) -> (r: Vec<Vec<Vec<u8>>>)
    ensures
        r.deep_view() == transform_spec(records.deep_view()),
{
    proof {
        lemma_transform_preserves_shape(records.deep_view());
    }
    let mut r: Vec<Vec<Vec<u8>>> = Vec::new();
    let mut i: usize = 0;
    while i < records.len()
        invariant
            i <= records@.len(),
            r@.len() == i,
            transform_spec(records.deep_view()).len() == records@.len(),
            forall|k: int| 0 <= k < i ==> #[trigger] r.deep_view()[k] == transform_spec(
                records.deep_view(),
            )[k],
        decreases records@.len() - i,
    {
        let ghost prev_view = r@;
        let ghost prev_deep = r.deep_view();
        let rec = if i == 0 {
            convert_record(&records[0])
        } else {
            copy_record(&records[i])
        };
        proof {
            assert(rec.deep_view() == transform_spec(records.deep_view())[i as int]);
        }
        r.push(rec);
        proof {
            assert forall|k: int| 0 <= k < i + 1 implies #[trigger] r.deep_view()[k]
                == transform_spec(records.deep_view())[k] by {
                assert(r.deep_view()[k] == r@[k].deep_view());
                if k < i {
                    assert(r@[k] == prev_view[k]);
                    assert(prev_deep[k] == prev_view[k].deep_view());
                } else {
                    assert(r@[k] == rec);
                }
            }
        }
        i = i + 1;
    }
    assert(r.deep_view() =~= transform_spec(records.deep_view()));
    r
}

/// Why a run produced no output: the input could not be read as records, or
/// the output writer failed.
#[derive(Debug)]
pub enum PipelineError {
    /// The input is malformed: bad quoting, or records of unequal field
    /// counts.
    Source(String),
    /// A write into the output buffer failed.
    Sink(String),
}

/// Canonicalize the header row of a delimiter-separated byte stream.
///
/// The input is parsed into records; the first record's fields are rewritten
/// as canonical snake_case names; every later record is passed through
/// byte for byte; the rows are emitted through the column-aligning writer
/// and come back as one byte stream.  An empty input yields an empty output,
/// and a malformed input is reported as a source error.
pub fn snake_case_csv(input: &[u8], delim: u8) -> (r: Result<Vec<u8>, PipelineError>)
    ensures
        match r {
            Ok(out) => csv_records(input@, delim) matches Some(records) && out@ == aligned_render(
                transform_spec(records),
                delim,
            ),
            Err(e) => csv_records(input@, delim) is None && e is Source,
        },
{
    let records = match parse_records(input, delim) {
        Ok(records) => records,
        Err(msg) => {
            return Err(PipelineError::Source(msg));
        },
    };
    let transformed = transform_records(&records);
    proof {
        lemma_transform_preserves_shape(records.deep_view());
    }
    assert(equal_field_counts(transformed.deep_view()));
    let mut w = new_aligned_writer(delim);
    let mut i: usize = 0;
    while i < transformed.len()
        invariant
            i <= transformed@.len(),
            writer_records(w) == transformed.deep_view().subrange(0, i as int),
            writer_delim(w) == delim,
            writer_ok(w),
            equal_field_counts(transformed.deep_view()),
        decreases transformed@.len() - i,
    {
        proof {
            let tdv = transformed.deep_view();
            assert(tdv[i as int] == transformed@[i as int].deep_view());
            if i > 0 {
                assert(writer_records(w)[0] == tdv.subrange(0, i as int)[0]);
                assert(tdv[0].len() == tdv[i as int].len());
            }
            assert(writer_records(w).len() == 0 || transformed@[i as int]@.len()
                == writer_records(w)[0].len());
        }
        let wrote = write_aligned_record(&mut w, &transformed[i]);
        match wrote {
            Ok(_) => {},
            Err(msg) => {
                // unreachable: the field counts all match the first record's
                return Err(PipelineError::Sink(msg));
            },
        }
        assert(writer_records(w) =~= transformed.deep_view().subrange(0, i + 1));
        i = i + 1;
    }
    assert(writer_records(w) =~= transformed.deep_view());
    match finish_aligned_writer(w) {
        Ok(out) => Ok(out),
        Err(msg) => {
            // unreachable: flushing an in-memory buffer cannot fail
            Err(PipelineError::Sink(msg))
        },
    }
}

} // verus!
