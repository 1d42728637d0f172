use vstd::prelude::*;

use crate::hexcodec::{decode_hex, hex_decoded, hex_error, hex_valid, HexError};
use crate::naming::{artifact_path, artifact_path_of};
use crate::scan::{find_terminator, has_marker_at, record_at, records, records_before, MARKER_LEN};

verus! {

/// What became of one image record of a buffer.
#[derive(Debug, PartialEq, Eq)]
pub enum Outcome {
    /// The hex text decoded: `data` is to be written to `path`, the file of
    /// the row's `index`-th image (counted from one).
    Image { index: usize, path: String, data: Vec<u8> },
    /// The hex text did not decode; no file, and the count is not advanced.
    BadHex { error: HexError },
}

/// The mathematical value of an `Outcome`.
pub enum Extracted {
    Image { index: nat, path: Seq<char>, data: Seq<u8> },
    BadHex { error: HexError },
}

impl View for Outcome {
    type V = Extracted;

    open spec fn view(&self) -> Extracted {
        match self {
            Outcome::Image { index, path, data } => Extracted::Image {
                index: *index as nat,
                path: path@,
                data: data@,
            },
            Outcome::BadHex { error } => Extracted::BadHex { error: *error },
        }
    }
}

/// The values of a sequence of outcomes.
pub open spec fn outcome_views(s: Seq<Outcome>) -> Seq<Extracted> {
    s.map_values(|o: Outcome| o@)
}

/// How many of the hex texts decode.
pub open spec fn decoded_count(texts: Seq<Seq<u8>>) -> nat
    decreases texts.len(),
{
    if texts.len() == 0 {
        0
    } else {
        decoded_count(texts.drop_last()) + if hex_valid(texts.last()) {
            1nat
        } else {
            0nat
        }
    }
}

/// The outcome of one hex text, which would be the row's `index`-th image.
pub open spec fn outcome_of(
    text: Seq<u8>,
    index: nat,
    title: Seq<char>,
    out_folder: Seq<char>,
) -> Extracted {
    if hex_valid(text) {
        Extracted::Image {
            index,
            path: artifact_path_of(out_folder, title, index),
            data: hex_decoded(text),
        }
    } else {
        Extracted::BadHex { error: hex_error(text) }
    }
}

/// Outcomes of a row's hex texts in order; images are numbered from one,
/// counting only the texts that decode.
pub open spec fn outcomes(texts: Seq<Seq<u8>>, title: Seq<char>, out_folder: Seq<char>) -> Seq<
    Extracted,
>
    decreases texts.len(),
{
    if texts.len() == 0 {
        Seq::empty()
    } else {
        let prev = texts.drop_last();
        outcomes(prev, title, out_folder).push(
            outcome_of(texts.last(), decoded_count(prev) + 1, title, out_folder),
        )
    }
}

/// What extraction yields for a whole buffer.
pub open spec fn extraction(buf: Seq<u8>, title: Seq<char>, out_folder: Seq<char>) -> Seq<
    Extracted,
> {
    outcomes(records(buf), title, out_folder)
}

/// A row has no more decoded records than bytes.
proof fn lemma_count_bounds(buf: Seq<u8>, n: int)
    requires
        0 <= n <= buf.len(),
    ensures
        decoded_count(records_before(buf, n)) <= records_before(buf, n).len() <= n,
    decreases n,
{
    lemma_decoded_count_le_len(records_before(buf, n));
    if n > 0 {
        lemma_count_bounds(buf, n - 1);
    }
}

proof fn lemma_decoded_count_le_len(texts: Seq<Seq<u8>>)
    ensures
        decoded_count(texts) <= texts.len(),
    decreases texts.len(),
{
    if texts.len() > 0 {
        lemma_decoded_count_le_len(texts.drop_last());
    }
}

/// Scans `input` for image records and decodes each, left to right. Every
/// position where a whole marker starts is tried; a record is the hex text
/// between the marker and the next carriage return, and a marker with no
/// carriage return after it gives nothing. Decoded records are numbered from
/// one and get the path `<folder>/<title with . and ? as _>_<n>.jpg`, the
/// folder being `out_folder`, or `out` where that is empty.
pub fn extract_images(input: &[u8], title: &str, out_folder: &str) -> (r: Vec<Outcome>)
    ensures
        outcome_views(r@) == extraction(input@, title@, out_folder@),
{
    let mut result: Vec<Outcome> = Vec::new();
    let mut index: usize = 0;
    let mut i: usize = 0;
    while i < input.len()
        invariant
            i <= input@.len(),
            outcome_views(result@) == outcomes(records_before(input@, i as int), title@, out_folder@),
            index == decoded_count(records_before(input@, i as int)),
        decreases input@.len() - i,
    {
        proof {
            lemma_count_bounds(input@, i as int);
        }
        let ghost texts = records_before(input@, i as int);
        if has_marker_at(input, i) {
            match find_terminator(input, i + MARKER_LEN) {
                Some(j) => {
                    let hex_text = &input[i + MARKER_LEN..j];
                    assert(hex_text@ =~= input@.subrange(i + 12, j as int));
                    assert(record_at(input@, i as int) == Some(hex_text@));
                    let ghost next = texts.push(hex_text@);
                    assert(next.drop_last() =~= texts);
                    match decode_hex(hex_text) {
                        Ok(img) => {
                            index = index + 1;
                            let path = artifact_path(out_folder, title, index);
                            result.push(Outcome::Image { index, path, data: img });
                        },
                        Err(error) => {
                            result.push(Outcome::BadHex { error });
                        },
                    }
                    assert(outcome_views(result@) =~= outcomes(next, title@, out_folder@));
                },
                None => {},
            }
        }
        i = i + 1;
    }
    result
}

} // verus!
