//! The optionally compressed input envelope: decompress, then convert.
use vstd::prelude::*;
use crate::driver::Conversion;
use crate::driver::convert;
use crate::driver::spec_convert_matches;
use crate::errors::ConvertError;
use crate::schema::Schema;
use crate::schema::spec_schema_size;

verus! {

/// What gzip decompression yields on a byte buffer: the decompressed
/// content of the stream's first member, or nothing when the envelope is
/// malformed. A pure function of the bytes alone.
pub uninterp spec fn gunzip_of(b: Seq<u8>) -> Option<Seq<u8>>;

/// Relies on flate2's `bufread::GzDecoder` (with `Read::read_to_end`):
/// decompresses the single-member gzip stream held in `data`, failing on a
/// malformed envelope; the outcome depends on the bytes alone.
#[verifier::external_body]
fn gunzip(data: &Vec<u8>) -> (r: Result<Vec<u8>, ConvertError>)
    ensures
        r is Ok <==> gunzip_of(data@) is Some,
        r is Ok ==> r->Ok_0@ == gunzip_of(data@)->0,
        r is Err ==> r->Err_0 == ConvertError::Decompression,
{
    let mut d = flate2::bufread::GzDecoder::new(data.as_slice());
    let mut out: Vec<u8> = Vec::new();
    match std::io::Read::read_to_end(&mut d, &mut out) {
        Ok(_) => Ok(out),
        Err(_) => Err(ConvertError::Decompression),
    }
}

/// Run one whole conversion over a gzip-compressed stream held in memory:
/// decompress the envelope, then convert exactly as `convert` does.
pub fn convert_compressed(schema: &Schema, expected_version: u64, gz_input: &Vec<u8>) -> (r:
    Result<Conversion, ConvertError>)
    requires
        spec_schema_size(*schema) <= usize::MAX,
    ensures
        gunzip_of(gz_input@) is None ==> r == Err::<Conversion, ConvertError>(
            ConvertError::Decompression,
        ),
        gunzip_of(gz_input@) is Some ==> spec_convert_matches(
            *schema,
            expected_version,
            gunzip_of(gz_input@)->0,
            r,
        ),
{
    match gunzip(gz_input) {
        Ok(raw) => convert(schema, expected_version, &raw),
        Err(e) => Err(e),
    }
}

} // verus!
