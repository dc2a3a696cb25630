//! The CSV text layout of a converted window file.
//!
//! The output is one comment line naming the header range, one
//! column-header line (whose commas carry a trailing space), and one
//! data line per record (whose commas carry none; the asymmetry is part
//! of the observable format).

use crate::codec::PrimeRecord;
use crate::primality::spec_is_prime;
use crate::text::bool_chars;
use crate::text::dec_chars;
use crate::text::lemma_dec_chars_digits;
use vstd::prelude::*;

verus! {

/// The leading comment line, newline included.
pub open spec fn comment_line(range_start: u64, range_end: u64) -> Seq<char> {
    "# Range: "@ + dec_chars(range_start as nat) + " to "@ + dec_chars(range_end as nat) + "\n"@
}

/// The column-header line, newline included.
pub open spec fn column_header_line(check: bool) -> Seq<char> {
    if check {
        "prime, next_value, is_prime\n"@
    } else {
        "prime, next_value\n"@
    }
}

/// One data line, newline included: the record's prime, its next
/// value, and in check mode a freshly computed primality verdict.
pub open spec fn record_line(r: PrimeRecord, check: bool) -> Seq<char> {
    dec_chars(r.prime as nat) + ","@ + dec_chars(r.next_value as nat) + (if check {
        ","@ + bool_chars(spec_is_prime(r.prime as int))
    } else {
        Seq::<char>::empty()
    }) + "\n"@
}

/// The data lines of a record sequence, in order.
pub open spec fn record_lines(records: Seq<PrimeRecord>, check: bool) -> Seq<char>
    decreases records.len(),
{
    if records.len() == 0 {
        Seq::empty()
    } else {
        record_line(records[0], check) + record_lines(records.drop_first(), check)
    }
}

/// The whole CSV text of one window file.
pub open spec fn window_csv(
    range_start: u64,
    range_end: u64,
    records: Seq<PrimeRecord>,
    check: bool,
) -> Seq<char> {
    comment_line(range_start, range_end) + column_header_line(check) + record_lines(records, check)
}

/// How many newline characters a text holds.
pub open spec fn newline_count(s: Seq<char>) -> nat
    decreases s.len(),
{
    if s.len() == 0 {
        0
    } else {
        (if s[0] == '\n' {
            1nat
        } else {
            0nat
        }) + newline_count(s.drop_first())
    }
}

/// Newlines are counted piecewise over a concatenation.
pub proof fn lemma_newline_count_concat(a: Seq<char>, b: Seq<char>)
    ensures
        newline_count(a + b) == newline_count(a) + newline_count(b),
    decreases a.len(),
{
    if a.len() == 0 {
        assert(a + b =~= b);
    } else {
        lemma_newline_count_concat(a.drop_first(), b);
        assert((a + b).drop_first() =~= a.drop_first() + b);
        assert(newline_count(a + b) == newline_count(a) + newline_count(b));
    }
}

/// A text without newline characters counts zero of them.
pub proof fn lemma_newline_count_none(s: Seq<char>)
    requires
        forall|i: int| 0 <= i < s.len() ==> s[i] != '\n',
    ensures
        newline_count(s) == 0,
    decreases s.len(),
{
    if s.len() > 0 {
        assert(forall|i: int|
            0 <= i < s.drop_first().len() ==> #[trigger] s.drop_first()[i] == s[i + 1]);
        lemma_newline_count_none(s.drop_first());
    }
}

/// A decimal rendering holds no newline: every character is a digit.
pub proof fn lemma_newline_count_dec(n: nat)
    ensures
        newline_count(dec_chars(n)) == 0,
{
    lemma_dec_chars_digits(n);
    lemma_newline_count_none(dec_chars(n));
}

/// The newline counts of the fixed text fragments of the format.
proof fn lemma_literal_newlines()
    ensures
        newline_count("# Range: "@) == 0,
        newline_count(" to "@) == 0,
        newline_count(","@) == 0,
        newline_count("\n"@) == 1,
        newline_count("true"@) == 0,
        newline_count("false"@) == 0,
        newline_count("prime, next_value\n"@) == 1,
        newline_count("prime, next_value, is_prime\n"@) == 1,
{
    reveal_strlit("# Range: ");
    reveal_strlit(" to ");
    reveal_strlit(",");
    reveal_strlit("\n");
    reveal_strlit("true");
    reveal_strlit("false");
    reveal_strlit("prime, next_value\n");
    reveal_strlit("prime, next_value, is_prime\n");
    reveal_with_fuel(newline_count, 32);
    assert(newline_count("# Range: "@) == 0);
    assert(newline_count(" to "@) == 0);
    assert(newline_count(","@) == 0);
    assert(newline_count("\n"@) == 1);
    assert(newline_count("true"@) == 0);
    assert(newline_count("false"@) == 0);
    assert(newline_count("prime, next_value\n"@) == 1);
    assert(newline_count("prime, next_value, is_prime\n"@) == 1);
}

/// The comment line ends in its only newline.
pub proof fn lemma_comment_line_newlines(range_start: u64, range_end: u64)
    ensures
        newline_count(comment_line(range_start, range_end)) == 1,
{
    lemma_literal_newlines();
    lemma_newline_count_dec(range_start as nat);
    lemma_newline_count_dec(range_end as nat);
    lemma_newline_count_concat("# Range: "@, dec_chars(range_start as nat));
    lemma_newline_count_concat("# Range: "@ + dec_chars(range_start as nat), " to "@);
    lemma_newline_count_concat(
        "# Range: "@ + dec_chars(range_start as nat) + " to "@,
        dec_chars(range_end as nat),
    );
    lemma_newline_count_concat(
        "# Range: "@ + dec_chars(range_start as nat) + " to "@ + dec_chars(range_end as nat),
        "\n"@,
    );
}

/// The column-header line ends in its only newline.
pub proof fn lemma_column_header_line_newlines(check: bool)
    ensures
        newline_count(column_header_line(check)) == 1,
{
    lemma_literal_newlines();
}

/// A data line ends in its only newline.
pub proof fn lemma_record_line_newlines(r: PrimeRecord, check: bool)
    ensures
        newline_count(record_line(r, check)) == 1,
{
    lemma_literal_newlines();
    lemma_newline_count_dec(r.prime as nat);
    lemma_newline_count_dec(r.next_value as nat);
    let prime_part = dec_chars(r.prime as nat);
    let next_part = dec_chars(r.next_value as nat);
    let verdict = if check {
        ","@ + bool_chars(spec_is_prime(r.prime as int))
    } else {
        Seq::<char>::empty()
    };
    if check {
        lemma_newline_count_concat(","@, bool_chars(spec_is_prime(r.prime as int)));
    }
    assert(newline_count(verdict) == 0);
    lemma_newline_count_concat(prime_part, ","@);
    lemma_newline_count_concat(prime_part + ","@, next_part);
    lemma_newline_count_concat(prime_part + ","@ + next_part, verdict);
    lemma_newline_count_concat(prime_part + ","@ + next_part + verdict, "\n"@);
}

/// The data lines hold one newline per record.
pub proof fn lemma_record_lines_newlines(records: Seq<PrimeRecord>, check: bool)
    ensures
        newline_count(record_lines(records, check)) == records.len(),
    decreases records.len(),
{
    if records.len() > 0 {
        lemma_record_line_newlines(records[0], check);
        lemma_record_lines_newlines(records.drop_first(), check);
        lemma_newline_count_concat(
            record_line(records[0], check),
            record_lines(records.drop_first(), check),
        );
    }
}

/// A converted window file has exactly one newline-terminated line per
/// record, after the comment line and the column-header line.
pub proof fn lemma_window_csv_newlines(
    range_start: u64,
    range_end: u64,
    records: Seq<PrimeRecord>,
    check: bool,
)
    ensures
        newline_count(window_csv(range_start, range_end, records, check)) == records.len() + 2,
{
    lemma_comment_line_newlines(range_start, range_end);
    lemma_column_header_line_newlines(check);
    lemma_record_lines_newlines(records, check);
    lemma_newline_count_concat(comment_line(range_start, range_end), column_header_line(check));
    lemma_newline_count_concat(
        comment_line(range_start, range_end) + column_header_line(check),
        record_lines(records, check),
    );
}

/// Appending one record extends the data lines by that record's line.
pub proof fn lemma_record_lines_push(records: Seq<PrimeRecord>, r: PrimeRecord, check: bool)
    ensures
        record_lines(records.push(r), check) == record_lines(records, check) + record_line(
            r,
            check,
        ),
    decreases records.len(),
{
    if records.len() == 0 {
        assert(records.push(r).drop_first() =~= Seq::<PrimeRecord>::empty());
        assert(records.push(r)[0] == r);
        assert(record_lines(Seq::<PrimeRecord>::empty(), check) == Seq::<char>::empty());
        assert(record_lines(records.push(r), check) =~= record_lines(records, check) + record_line(
            r,
            check,
        ));
    } else {
        lemma_record_lines_push(records.drop_first(), r, check);
        assert(records.push(r).drop_first() =~= records.drop_first().push(r));
        assert(records.push(r)[0] == records[0]);
        assert(record_lines(records.push(r), check) == record_line(records[0], check) + (
        record_lines(records.drop_first(), check) + record_line(r, check)));
        assert(record_lines(records.push(r), check) =~= record_lines(records, check) + record_line(
            r,
            check,
        ));
    }
}

/// Where data line `i` begins, counted from the start of the data
/// lines.
pub open spec fn line_offset(records: Seq<PrimeRecord>, check: bool, i: int) -> int
    decreases i,
{
    if i <= 0 {
        0
    } else {
        record_line(records[0], check).len() + line_offset(records.drop_first(), check, i - 1)
    }
}

/// Data line `i` stands unchanged at its offset within the data lines.
pub proof fn lemma_record_lines_index(records: Seq<PrimeRecord>, check: bool, i: int)
    requires
        0 <= i < records.len(),
    ensures
        line_offset(records, check, i) >= 0,
        line_offset(records, check, i) + record_line(records[i], check).len() <= record_lines(
            records,
            check,
        ).len(),
        record_lines(records, check).subrange(
            line_offset(records, check, i),
            line_offset(records, check, i) + record_line(records[i], check).len(),
        ) == record_line(records[i], check),
    decreases i,
{
    let whole = record_lines(records, check);
    let head = record_line(records[0], check);
    let tail = record_lines(records.drop_first(), check);
    if i == 0 {
        assert(whole.subrange(0, head.len() as int) =~= head);
    } else {
        lemma_record_lines_index(records.drop_first(), check, i - 1);
        let off = line_offset(records.drop_first(), check, i - 1);
        let line = record_line(records.drop_first()[i - 1], check);
        assert(records.drop_first()[i - 1] == records[i]);
        assert(whole.subrange(head.len() + off, head.len() + off + line.len()) =~= tail.subrange(
            off,
            off + line.len(),
        ));
    }
}

/// Data line `i` of a converted file stands unchanged at its offset
/// after the comment and column-header lines.
pub proof fn lemma_window_csv_data_line(
    range_start: u64,
    range_end: u64,
    records: Seq<PrimeRecord>,
    check: bool,
    i: int,
)
    requires
        0 <= i < records.len(),
    ensures
        ({
            let whole = window_csv(range_start, range_end, records, check);
            let off = comment_line(range_start, range_end).len() + column_header_line(check).len()
                + line_offset(records, check, i);
            let line = record_line(records[i], check);
            &&& 0 <= off
            &&& off + line.len() <= whole.len()
            &&& whole.subrange(off, off + line.len()) == line
        }),
{
    let whole = window_csv(range_start, range_end, records, check);
    let head = comment_line(range_start, range_end) + column_header_line(check);
    let lines = record_lines(records, check);
    lemma_record_lines_index(records, check, i);
    let off = line_offset(records, check, i);
    let line = record_line(records[i], check);
    assert(whole.subrange(head.len() + off, head.len() + off + line.len()) =~= lines.subrange(
        off,
        off + line.len(),
    ));
}

/// In a converted text, data line `i` opens with record `i`'s prime,
/// rendered decimally and closed by a comma.
pub proof fn lemma_window_csv_leading_field(
    range_start: u64,
    range_end: u64,
    records: Seq<PrimeRecord>,
    check: bool,
    i: int,
)
    requires
        0 <= i < records.len(),
    ensures
        ({
            let text = window_csv(range_start, range_end, records, check);
            let off = comment_line(range_start, range_end).len() + column_header_line(check).len()
                + line_offset(records, check, i);
            let prime_text = dec_chars(records[i].prime as nat);
            &&& 0 <= off
            &&& off + prime_text.len() < text.len()
            &&& text.subrange(off, off + prime_text.len() as int) == prime_text
            &&& text[off + prime_text.len()] == ','
        }),
{
    let text = window_csv(range_start, range_end, records, check);
    let off = comment_line(range_start, range_end).len() + column_header_line(check).len()
        + line_offset(records, check, i);
    let line = record_line(records[i], check);
    let prime_text = dec_chars(records[i].prime as nat);
    lemma_window_csv_data_line(range_start, range_end, records, check, i);
    lemma_record_line_leading_field(records[i], check);
    assert(text.subrange(off as int, off + prime_text.len()) =~= line.subrange(
        0,
        prime_text.len() as int,
    ));
    assert(text[off + prime_text.len()] == line[prime_text.len() as int]);
}

/// The prime field opens each data line, rendered decimally and closed
/// by a comma.
pub proof fn lemma_record_line_leading_field(r: PrimeRecord, check: bool)
    ensures
        record_line(r, check).len() > dec_chars(r.prime as nat).len(),
        record_line(r, check).subrange(0, dec_chars(r.prime as nat).len() as int) == dec_chars(
            r.prime as nat,
        ),
        record_line(r, check)[dec_chars(r.prime as nat).len() as int] == ',',
{
    reveal_strlit(",");
    let prime_part = dec_chars(r.prime as nat);
    assert(record_line(r, check).subrange(0, prime_part.len() as int) =~= prime_part);
    assert(record_line(r, check)[prime_part.len() as int] == ","@[0]);
}

} // verus!
