//! The batch driver's policy over a directory listing.
//!
//! The driver walks one directory's entries in listing order. Entries
//! the enumeration could not read are noted and skipped; entries whose
//! name does not carry the `.bin` extension are ignored; each remaining
//! file is converted to a CSV named after it. A malformed file aborts
//! the rest of the batch, but outputs completed before it are kept —
//! enumeration noise is tolerated, content errors are not.

use crate::codec::header_complete;
use crate::codec::well_formed;
use crate::convert::convert_window;
use crate::convert::csv_text_of;
use crate::convert::ConversionError;
use vstd::prelude::*;
use vstd::string::StrSliceExecFns;
use vstd::string::StringExecFns;

verus! {

/// One entry of a directory listing, as the enumeration saw it.
pub enum ListingItem {
    /// A readable entry: its file name and its byte contents.
    File { name: String, data: Vec<u8> },
    /// An entry the enumeration failed to read.
    Unreadable,
}

/// One produced CSV: its file name and its text.
pub struct BatchOutput {
    /// The output file name, the input's with its extension replaced.
    pub name: String,
    /// The full CSV text for that file.
    pub text: String,
}

/// What a batch run did: every output completed, and the error that
/// stopped the batch, if one did.
pub struct BatchReport {
    /// The outputs completed, in listing order.
    pub outputs: Vec<BatchOutput>,
    /// The first conversion failure, which aborted the rest.
    pub error: Option<ConversionError>,
}

/// Whether a file name carries the binary-window extension: it ends in
/// `.bin` with at least one character before the dot.
pub open spec fn has_bin_extension(name: Seq<char>) -> bool {
    &&& name.len() >= 5
    &&& name[name.len() - 4] == '.'
    &&& name[name.len() - 3] == 'b'
    &&& name[name.len() - 2] == 'i'
    &&& name[name.len() - 1] == 'n'
}

/// The derived output name: the same base with `csv` in place of the
/// `bin` extension.
pub open spec fn csv_name_of(name: Seq<char>) -> Seq<char> {
    name.take(name.len() - 3) + "csv"@
}

/// Decides whether `name` carries the `.bin` extension.
pub fn is_bin_name(name: &str) -> (r: bool)
    ensures
        r == has_bin_extension(name@),
{
    let n = name.unicode_len();
    if n < 5 {
        return false;
    }
    name.get_char(n - 4) == '.' && name.get_char(n - 3) == 'b' && name.get_char(n - 2) == 'i'
        && name.get_char(n - 1) == 'n'
}

/// Derives the CSV output name for a `.bin`-named input, or nothing
/// for any other name.
pub fn csv_name(name: &str) -> (r: Option<String>)
    ensures
        match r {
            Some(out) => has_bin_extension(name@) && out@ == csv_name_of(name@),
            None => !has_bin_extension(name@),
        },
{
    if !is_bin_name(name) {
        return None;
    }
    let n = name.unicode_len();
    let base = name.substring_char(0, n - 3).to_owned();
    let out = base.concat("csv");
    proof {
        assert(name@.subrange(0, name@.len() - 3) =~= name@.take(name@.len() - 3));
    }
    Some(out)
}

/// The `.bin`-named files of a listing, in order: name and contents.
pub open spec fn bin_files(items: Seq<ListingItem>) -> Seq<(Seq<char>, Seq<u8>)>
    decreases items.len(),
{
    if items.len() == 0 {
        Seq::empty()
    } else {
        let rest = bin_files(items.drop_first());
        match items[0] {
            ListingItem::File { name, data } => if has_bin_extension(name@) {
                seq![(name@, data@)] + rest
            } else {
                rest
            },
            ListingItem::Unreadable => rest,
        }
    }
}

/// The outputs a batch owes: one CSV per file of the longest
/// well-formed prefix of the `.bin` files.
pub open spec fn batch_outputs(files: Seq<(Seq<char>, Seq<u8>)>, check: bool) -> Seq<
    (Seq<char>, Seq<char>),
>
    decreases files.len(),
{
    if files.len() == 0 {
        Seq::empty()
    } else if well_formed(files[0].1) {
        seq![(csv_name_of(files[0].0), csv_text_of(files[0].1, check))] + batch_outputs(
            files.drop_first(),
            check,
        )
    } else {
        Seq::empty()
    }
}

/// The error of the first malformed `.bin` file, if any.
pub open spec fn batch_error(files: Seq<(Seq<char>, Seq<u8>)>) -> Option<ConversionError>
    decreases files.len(),
{
    if files.len() == 0 {
        None
    } else if well_formed(files[0].1) {
        batch_error(files.drop_first())
    } else if !header_complete(files[0].1) {
        Some(ConversionError::TruncatedHeader)
    } else {
        Some(ConversionError::TruncatedRecord)
    }
}

/// The name-and-text view of produced outputs.
pub open spec fn outputs_view(outs: Seq<BatchOutput>) -> Seq<(Seq<char>, Seq<char>)> {
    Seq::new(outs.len(), |i: int| (outs[i].name@, outs[i].text@))
}

/// Converts every `.bin`-named file of a directory listing, in listing
/// order.
///
/// Unreadable entries and other names are passed over; the first
/// malformed file stops the batch with its error, and the outputs
/// completed before it are kept.
pub fn convert_listing(items: &Vec<ListingItem>, check: bool) -> (report: BatchReport)
    ensures
        outputs_view(report.outputs@) == batch_outputs(bin_files(items@), check),
        report.error == batch_error(bin_files(items@)),
{
    let ghost files = bin_files(items@);
    let mut outputs: Vec<BatchOutput> = Vec::new();
    let mut j: usize = 0;
    proof {
        assert(items@.skip(0) =~= items@);
        assert(outputs_view(outputs@) =~= Seq::<(Seq<char>, Seq<char>)>::empty());
    }
    while j < items.len()
        invariant
            0 <= j <= items@.len(),
            files == bin_files(items@),
            batch_outputs(files, check) =~= outputs_view(outputs@) + batch_outputs(
                bin_files(items@.skip(j as int)),
                check,
            ),
            batch_error(files) == batch_error(bin_files(items@.skip(j as int))),
        decreases items@.len() - j,
    {
        let ghost rest = bin_files(items@.skip(j as int));
        proof {
            assert(items@.skip(j as int).drop_first() =~= items@.skip(j + 1));
            assert(items@.skip(j as int)[0] == items@[j as int]);
        }
        match &items[j] {
            ListingItem::File { name, data } => {
                match csv_name(name.as_str()) {
                    Some(out_name) => {
                        proof {
                            assert(rest[0] == (name@, data@));
                            assert(rest.drop_first() =~= bin_files(items@.skip(j + 1)));
                        }
                        match convert_window(data.as_slice(), check) {
                            Ok(conv) => {
                                let produced = BatchOutput { name: out_name, text: conv.output };
                                outputs.push(produced);
                                proof {
                                    assert(outputs_view(outputs@) =~= outputs_view(
                                        outputs@.drop_last(),
                                    ) + seq![(csv_name_of(name@), csv_text_of(data@, check))]);
                                    assert(batch_outputs(files, check) =~= outputs_view(outputs@)
                                        + batch_outputs(bin_files(items@.skip(j + 1)), check));
                                }
                            },
                            Err(e) => {
                                proof {
                                    assert(batch_outputs(rest, check) =~= Seq::<
                                        (Seq<char>, Seq<char>),
                                    >::empty());
                                    assert(batch_outputs(files, check) =~= outputs_view(outputs@));
                                    assert(batch_error(files) == Some(e));
                                }
                                return BatchReport { outputs, error: Some(e) };
                            },
                        }
                    },
                    None => {
                        proof {
                            assert(bin_files(items@.skip(j as int)) =~= bin_files(
                                items@.skip(j + 1),
                            ));
                        }
                    },
                }
            },
            ListingItem::Unreadable => {
                proof {
                    assert(bin_files(items@.skip(j as int)) =~= bin_files(items@.skip(j + 1)));
                }
            },
        }
        j = j + 1;
    }
    proof {
        assert(items@.skip(items@.len() as int) =~= Seq::<ListingItem>::empty());
        assert(batch_outputs(files, check) =~= outputs_view(outputs@));
    }
    BatchReport { outputs, error: None }
}

} // verus!
