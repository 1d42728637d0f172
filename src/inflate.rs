use vstd::prelude::*;

use std::io::Read;

use crate::extract::{extract_images, extraction, outcome_views, Outcome};

verus! {

#[verifier::external_type_specification]
#[verifier::external_body]
pub struct ExIoError(std::io::Error);

/// The bytes that a complete zlib stream inflates to.
pub uninterp spec fn zlib_inflated(data: Seq<u8>) -> Seq<u8>;

/// The data is a zlib stream that inflates to its end without error.
pub uninterp spec fn zlib_accepts(data: Seq<u8>) -> bool;

/// Relies on flate2::bufread::ZlibDecoder read with std::io::Read::read_to_end:
/// whether it succeeds depends on the input bytes alone (an error comes only
/// from corrupt data or a stream that ends early); on success the whole
/// inflated stream is appended to `output` and its length returned; on an
/// error the bytes inflated before it are appended and the earlier content of
/// `output` is kept.
#[verifier::external_body]
pub(crate) fn decompress_zlib(input: &[u8], output: &mut Vec<u8>) -> (r: Result<
    usize,
    std::io::Error,
>)
    ensures
        (r is Ok) == zlib_accepts(input@),
        match r {
            Ok(n) => final(output)@ == old(output)@ + zlib_inflated(input@) && n
                == zlib_inflated(input@).len(),
            Err(_) => old(output)@.len() <= final(output)@.len() && final(output)@.subrange(
                0,
                old(output)@.len() as int,
            ) == old(output)@,
        },
{
    let mut decoder = flate2::bufread::ZlibDecoder::new(input);
    decoder.read_to_end(output)
}

/// What one row's payload gave.
#[derive(Debug)]
pub struct RowReport {
    /// Why the payload did not inflate in full, if it did not; extraction then
    /// ran on what had inflated before the error.
    pub decompress_error: Option<std::io::Error>,
    /// The bytes that extraction ran on: the whole inflated payload, or what
    /// inflated before the error.
    pub inflated: Vec<u8>,
    /// The outcomes of the image records, in scan order.
    pub outcomes: Vec<Outcome>,
}

/// Inflates a row's zlib payload and extracts its images. A payload that
/// does not inflate does not stop the row: its error is reported and
/// extraction runs on the bytes that came out before it.
pub fn process(data: &[u8], title: &str, out_folder: &str) -> (r: RowReport)
    ensures
        (r.decompress_error is None) == zlib_accepts(data@),
        r.decompress_error is None ==> r.inflated@ == zlib_inflated(data@),
        outcome_views(r.outcomes@) == extraction(r.inflated@, title@, out_folder@),
        r.decompress_error is None ==> outcome_views(r.outcomes@) == extraction(
            zlib_inflated(data@),
            title@,
            out_folder@,
        ),
{
    let mut buf: Vec<u8> = Vec::new();
    let decompress_error = match decompress_zlib(data, &mut buf) {
        Ok(_) => {
            assert(buf@ =~= zlib_inflated(data@));
            None
        },
        Err(e) => Some(e),
    };
    let outcomes = extract_images(buf.as_slice(), title, out_folder);
    RowReport { decompress_error, inflated: buf, outcomes }
}

} // verus!
