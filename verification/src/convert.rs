//! The record converter: one window file's bytes to one CSV text.

use crate::codec::body_complete;
use crate::codec::decode_header;
use crate::codec::decode_record;
use crate::codec::encode_window;
use crate::codec::header_complete;
use crate::codec::lemma_encode_window_decodes;
use crate::codec::lemma_record_offset_in_bounds;
use crate::codec::range_end_of;
use crate::codec::range_start_of;
use crate::codec::record_count_of;
use crate::codec::records_of;
use crate::codec::well_formed;
use crate::codec::PrimeRecord;
use crate::csv::column_header_line;
use crate::csv::comment_line;
use crate::csv::lemma_record_lines_push;
use crate::csv::lemma_window_csv_newlines;
use crate::csv::newline_count;
use crate::csv::record_lines;
use crate::csv::window_csv;
use crate::primality::is_prime;
use crate::text::push_bool;
use crate::text::push_dec;
use vstd::prelude::*;
use vstd::string::StringExecFns;

verus! {

/// Why a conversion, or the batch around it, failed.
///
/// `TruncatedHeader` and `TruncatedRecord` describe malformed input
/// bytes; the other variants classify failures of the surrounding file
/// and directory handling, so a caller can report each precisely.
#[derive(Clone, Copy, Debug, PartialEq, Eq, Structural)]
pub enum ConversionError {
    /// The input file does not exist.
    InputNotFound,
    /// The input file exists but may not be read.
    PermissionDenied,
    /// The batch driver was pointed at something that is not a directory.
    NotADirectory,
    /// Fewer than 16 bytes where the header had to be.
    TruncatedHeader,
    /// A trailing fragment of a record: the bytes after the header do
    /// not split into whole 16-byte records.
    TruncatedRecord,
    /// The output file could not be written.
    OutputWriteFailure,
    /// Any other failure of the underlying input or output stream.
    IoFailure,
}

/// A successful conversion: the CSV text and how many records it holds.
#[derive(Debug)]
pub struct Conversion {
    /// The full CSV text, newline-terminated lines.
    pub output: String,
    /// How many data records were decoded and written.
    pub count: u64,
}

/// The CSV text a well-formed window file converts to.
pub open spec fn csv_text_of(data: Seq<u8>, check: bool) -> Seq<char> {
    window_csv(range_start_of(data), range_end_of(data), records_of(data), check)
}

/// The outcome a conversion of `data` must have: the exact CSV text
/// and record count for a well-formed file, the exact error otherwise.
pub open spec fn convert_result(data: Seq<u8>, check: bool) -> Result<
    (Seq<char>, nat),
    ConversionError,
> {
    if !header_complete(data) {
        Err(ConversionError::TruncatedHeader)
    } else if !body_complete(data) {
        Err(ConversionError::TruncatedRecord)
    } else {
        Ok((csv_text_of(data, check), record_count_of(data)))
    }
}

/// Converts one window file, given as its full byte contents, to its
/// CSV text.
///
/// A file shorter than its 16-byte header is rejected as
/// `TruncatedHeader`; one whose remainder is not whole 16-byte records
/// is rejected as `TruncatedRecord`; every other input yields exactly
/// the CSV text that `window_csv` describes, with one data line per
/// record. In check mode each record's primality is recomputed
/// independently of the stored bytes.
#[verifier::rlimit(60)]
pub fn convert_window(data: &[u8], check: bool) -> (r: Result<Conversion, ConversionError>)
    ensures
        r is Ok <==> well_formed(data@),
        match r {
            Ok(c) => Ok::<(Seq<char>, nat), ConversionError>((c.output@, c.count as nat))
                == convert_result(data@, check),
            Err(e) => Err::<(Seq<char>, nat), ConversionError>(e) == convert_result(data@, check),
        },
{
    if data.len() < 16 {
        return Err(ConversionError::TruncatedHeader);
    }
    if (data.len() - 16) % 16 != 0 {
        return Err(ConversionError::TruncatedRecord);
    }
    let (range_start, range_end) = decode_header(data);
    let mut out = String::new();
    out.append("# Range: ");
    push_dec(&mut out, range_start);
    out.append(" to ");
    push_dec(&mut out, range_end);
    out.append("\n");
    if check {
        out.append("prime, next_value, is_prime\n");
    } else {
        out.append("prime, next_value\n");
    }
    let ghost records = records_of(data@);
    proof {
        assert(records.take(0) =~= Seq::<PrimeRecord>::empty());
        assert(record_lines(Seq::<PrimeRecord>::empty(), check) == Seq::<char>::empty());
        assert(out@ =~= comment_line(range_start, range_end) + column_header_line(check)
            + record_lines(records.take(0), check));
    }
    let data_len: usize = data.len();
    let total = (data_len - 16) / 16;
    let mut count: usize = 0;
    while count < total
        invariant
            well_formed(data@),
            data@.len() == data_len,
            records == records_of(data@),
            total == record_count_of(data@),
            range_start == range_start_of(data@),
            range_end == range_end_of(data@),
            0 <= count <= total,
            out@ == comment_line(range_start, range_end) + column_header_line(check)
                + record_lines(records.take(count as int), check),
        decreases total - count,
    {
        proof {
            lemma_record_offset_in_bounds(data@, count as int);
        }
        let r = decode_record(data, count);
        push_dec(&mut out, r.prime);
        out.append(",");
        push_dec(&mut out, r.next_value);
        if check {
            out.append(",");
            push_bool(&mut out, is_prime(r.prime));
        }
        out.append("\n");
        proof {
            lemma_record_lines_push(records.take(count as int), r, check);
            assert(records.take(count as int).push(r) =~= records.take(count + 1));
            assert(out@ =~= comment_line(range_start, range_end) + column_header_line(check)
                + record_lines(records.take(count + 1), check));
        }
        count = count + 1;
    }
    proof {
        assert(records.take(total as int) =~= records);
    }
    Ok(Conversion { output: out, count: count as u64 })
}

/// Round trip: encoding a header and any record sequence and then
/// converting the bytes succeeds, keeps every record, and yields the
/// CSV text of exactly those records — one newline-terminated line per
/// record after the comment and column-header lines.
pub proof fn lemma_round_trip(
    range_start: u64,
    range_end: u64,
    records: Seq<PrimeRecord>,
    check: bool,
)
    ensures
        convert_result(encode_window(range_start, range_end, records), check) == Ok::<
            (Seq<char>, nat),
            ConversionError,
        >((window_csv(range_start, range_end, records, check), records.len())),
        newline_count(window_csv(range_start, range_end, records, check)) == records.len() + 2,
{
    lemma_encode_window_decodes(range_start, range_end, records);
    lemma_window_csv_newlines(range_start, range_end, records, check);
}

/// Converting the same input twice gives the same text and count, or
/// the same error: the outcome is a function of the input bytes and
/// the mode alone, so a repeated conversion to the same place is
/// byte-identical.
pub proof fn lemma_convert_idempotent(
    data: Seq<u8>,
    check: bool,
    first: Result<(Seq<char>, nat), ConversionError>,
    second: Result<(Seq<char>, nat), ConversionError>,
)
    requires
        first == convert_result(data, check),
        second == convert_result(data, check),
    ensures
        first == second,
{
}

/// A file of only the 16-byte header converts to exactly two lines and
/// a record count of zero.
pub proof fn lemma_empty_window(range_start: u64, range_end: u64, check: bool)
    ensures
        convert_result(encode_window(range_start, range_end, Seq::empty()), check) == Ok::<
            (Seq<char>, nat),
            ConversionError,
        >((window_csv(range_start, range_end, Seq::empty(), check), 0nat)),
        newline_count(window_csv(range_start, range_end, Seq::<PrimeRecord>::empty(), check)) == 2,
{
    lemma_round_trip(range_start, range_end, Seq::empty(), check);
}

} // verus!

