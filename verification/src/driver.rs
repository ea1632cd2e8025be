//! The stream driver: validate the version tag, then decode and flatten
//! record after record until the stream is exhausted.
//!
//! Policy for a stream that ends mid-record: the run fails with
//! `Truncated`. Only byte-exhaustion exactly at a record boundary is the
//! normal end-of-stream signal.
use vstd::prelude::*;
use crate::bytes::ByteSource;
use crate::bytes::spec_le_nat;
use crate::bytes::spec_pow256;
use crate::bytes::lemma_le_nat_bound;
use crate::errors::ConvertError;
use crate::decode::read_record;
use crate::decode::lemma_decoding_conforms;
use crate::flatten::header_columns;
use crate::flatten::row_tokens;
use crate::flatten::lemma_decoding_tokens;
use crate::flatten::lemma_header_len;
use crate::flatten::lemma_tokens_len;
use crate::flatten::spec_header;
use crate::flatten::spec_strings_view;
use crate::flatten::spec_tokens;
use crate::schema::Schema;
use crate::schema::lemma_well_formed_size_positive;
use crate::schema::spec_leaf_count;
use crate::schema::spec_schema_size;
use crate::schema::spec_well_formed;

verus! {

/// The interface version carried by the first eight bytes of a stream,
/// read little-endian.
pub open spec fn spec_version_of(b: Seq<u8>) -> nat {
    spec_le_nat(b.subrange(0, 8))
}

/// The flattened rows of a record stream body (the bytes after the version
/// tag): one row per complete leading record, in stream order.
pub open spec fn spec_rows_of(s: Schema, body: Seq<u8>) -> Seq<Seq<Seq<char>>>
    decreases body.len(),
{
    if spec_schema_size(s) == 0 || body.len() < spec_schema_size(s) {
        Seq::empty()
    } else {
        seq![spec_tokens(s, body.subrange(0, spec_schema_size(s) as int))] + spec_rows_of(
            s,
            body.subrange(spec_schema_size(s) as int, body.len() as int),
        )
    }
}

/// The number of bytes left over after the last complete record of a
/// stream body: zero exactly when the body is a whole number of records.
pub open spec fn spec_leftover(s: Schema, body: Seq<u8>) -> nat
    decreases body.len(),
{
    if spec_schema_size(s) == 0 || body.len() < spec_schema_size(s) {
        body.len()
    } else {
        spec_leftover(s, body.subrange(spec_schema_size(s) as int, body.len() as int))
    }
}

/// What a whole conversion run returns, as a function of the schema, the
/// expected version and the raw stream bytes. The checks run in this
/// order: schema invariant, version tag present, version tag matching,
/// stream a whole number of records; then the run succeeds with the
/// flattened header and one flattened row per record.
pub open spec fn spec_convert(s: Schema, expected: u64, b: Seq<u8>) -> Result<
    (Seq<Seq<char>>, Seq<Seq<Seq<char>>>),
    ConvertError,
> {
    if !spec_well_formed(s) {
        Err(ConvertError::HeaderGenerationFailure)
    } else if b.len() < 8 {
        Err(ConvertError::ShortRead)
    } else if spec_version_of(b) != expected {
        Err(
            ConvertError::VersionMismatch {
                expected,
                actual: spec_version_of(b) as u64,
            },
        )
    } else if spec_leftover(s, b.subrange(8, b.len() as int)) != 0 {
        Err(ConvertError::Truncated)
    } else {
        Ok((spec_header(s, Seq::<char>::empty()), spec_rows_of(s, b.subrange(8, b.len() as int))))
    }
}

/// A stream body of `k` complete records and `r` trailing bytes (fewer
/// than one record's worth) yields exactly `k` rows with `r` left over.
pub proof fn lemma_body_shape(s: Schema, body: Seq<u8>, k: nat, r: nat)
    requires
        spec_schema_size(s) >= 1,
        r < spec_schema_size(s),
        body.len() == k * spec_schema_size(s) + r,
    ensures
        spec_leftover(s, body) == r,
        spec_rows_of(s, body).len() == k,
    decreases k,
{
    let rsz = spec_schema_size(s);
    if k == 0 {
        assert(0 * rsz == 0);
    } else {
        assert(k * rsz >= 1 * rsz) by (nonlinear_arith)
            requires
                k >= 1,
                rsz >= 1,
        ;
        let rest = body.subrange(rsz as int, body.len() as int);
        assert(rest.len() == (k - 1) * rsz + r) by (nonlinear_arith)
            requires
                k >= 1,
                rest.len() == body.len() - rsz,
                body.len() == k * rsz + r,
        ;
        lemma_body_shape(s, rest, (k - 1) as nat, r);
    }
}

/// Every row of a stream body has one token per leaf of the schema.
proof fn lemma_rows_of_lens(s: Schema, body: Seq<u8>)
    ensures
        forall|i: int|
            0 <= i < spec_rows_of(s, body).len() ==> (#[trigger] spec_rows_of(s, body)[i]).len()
                == spec_leaf_count(s),
    decreases body.len(),
{
    if spec_schema_size(s) == 0 || body.len() < spec_schema_size(s) {
        assert(spec_rows_of(s, body).len() == 0);
    } else {
        let rsz = spec_schema_size(s) as int;
        let rows = spec_rows_of(s, body);
        let rest = spec_rows_of(s, body.subrange(rsz, body.len() as int));
        lemma_tokens_len(s, body.subrange(0, rsz));
        lemma_rows_of_lens(s, body.subrange(rsz, body.len() as int));
        assert forall|i: int| 0 <= i < rows.len() implies (#[trigger] rows[i]).len()
            == spec_leaf_count(s) by {
            if i == 0 {
                assert(rows[0] == spec_tokens(s, body.subrange(0, rsz)));
            } else {
                assert(rows[i] == rest[i - 1]);
            }
        }
    }
}

/// The structural alignment law at stream level: in a successful
/// conversion, every emitted row has exactly as many values as the header
/// has columns — for every decoded record, unconditionally.
pub proof fn lemma_conversion_aligned(s: Schema, expected: u64, b: Seq<u8>)
    requires
        spec_convert(s, expected, b) is Ok,
    ensures
        forall|i: int|
            0 <= i < spec_convert(s, expected, b)->Ok_0.1.len() ==> (#[trigger] spec_convert(
                s,
                expected,
                b,
            )->Ok_0.1[i]).len() == spec_convert(s, expected, b)->Ok_0.0.len(),
{
    lemma_header_len(s, Seq::<char>::empty());
    lemma_rows_of_lens(s, b.subrange(8, b.len() as int));
}

/// The determinism law: what a conversion run returns is a function of
/// the schema, the expected version and the stream bytes alone. Two runs
/// over equal streams yield identical headers, rows and errors.
pub proof fn lemma_convert_deterministic(s: Schema, expected: u64, b1: Seq<u8>, b2: Seq<u8>)
    requires
        b1 == b2,
    ensures
        spec_convert(s, expected, b1) == spec_convert(s, expected, b2),
{
}

/// The version-gate law: a stream whose version tag differs from the
/// expected value converts to a `VersionMismatch` error carrying both
/// values — and so to zero output rows.
pub proof fn lemma_version_mismatch(s: Schema, expected: u64, b: Seq<u8>)
    requires
        spec_well_formed(s),
        b.len() >= 8,
        spec_version_of(b) != expected,
    ensures
        spec_convert(s, expected, b) == Err::<(Seq<Seq<char>>, Seq<Seq<Seq<char>>>), ConvertError>(
            ConvertError::VersionMismatch { expected, actual: spec_version_of(b) as u64 },
        ),
{
}

/// The complete-stream law: a stream of exactly the matching version tag
/// followed by exactly `k` complete records converts successfully, to the
/// flattened header and exactly `k` rows.
pub proof fn lemma_complete_stream(s: Schema, expected: u64, b: Seq<u8>, k: nat)
    requires
        spec_well_formed(s),
        b.len() == 8 + k * spec_schema_size(s),
        spec_version_of(b) == expected,
    ensures
        spec_convert(s, expected, b) is Ok,
        spec_convert(s, expected, b)->Ok_0.0 == spec_header(s, Seq::<char>::empty()),
        spec_convert(s, expected, b)->Ok_0.1.len() == k,
{
    lemma_well_formed_size_positive(s);
    lemma_body_shape(s, b.subrange(8, b.len() as int), k, 0);
}

/// The truncation law: a stream that ends mid-record — more than zero but
/// fewer than one record's worth of bytes after the last complete record —
/// converts to a `Truncated` error.
pub proof fn lemma_truncated_stream(s: Schema, expected: u64, b: Seq<u8>, k: nat, r: nat)
    requires
        spec_well_formed(s),
        0 < r < spec_schema_size(s),
        b.len() == 8 + k * spec_schema_size(s) + r,
        spec_version_of(b) == expected,
    ensures
        spec_convert(s, expected, b) == Err::<(Seq<Seq<char>>, Seq<Seq<Seq<char>>>), ConvertError>(
            ConvertError::Truncated,
        ),
{
    lemma_well_formed_size_positive(s);
    lemma_body_shape(s, b.subrange(8, b.len() as int), k, r);
}

/// One finished conversion: the flattened header, one flattened row per
/// decoded record, and the summary count of records processed.
pub struct Conversion {
    pub header: Vec<String>,
    pub rows: Vec<Vec<String>>,
    pub count: usize,
}

/// The views of a sequence of rows.
pub open spec fn spec_rows_view(rows: Seq<Vec<String>>) -> Seq<Seq<Seq<char>>> {
    rows.map_values(|r: Vec<String>| spec_strings_view(r@))
}

/// The exec result `r` returns exactly what `spec_convert` says for these
/// arguments, and a successful count equals the number of rows.
pub open spec fn spec_convert_matches(
    s: Schema,
    expected: u64,
    b: Seq<u8>,
    r: Result<Conversion, ConvertError>,
) -> bool {
    match r {
        Ok(c) => {
            &&& spec_convert(s, expected, b) is Ok
            &&& spec_convert(s, expected, b)->Ok_0.0 == spec_strings_view(c.header@)
            &&& spec_convert(s, expected, b)->Ok_0.1 == spec_rows_view(c.rows@)
            &&& c.count == c.rows@.len()
        },
        Err(e) => spec_convert(s, expected, b) == Err::<
            (Seq<Seq<char>>, Seq<Seq<Seq<char>>>),
            ConvertError,
        >(e),
    }
}

/// Read the interface version from the head of a stream, without
/// converting anything.
pub fn read_version(input: &Vec<u8>) -> (r: Result<u64, ConvertError>)
    ensures
        input@.len() >= 8 ==> r == Ok::<u64, ConvertError>(spec_version_of(input@) as u64),
        input@.len() < 8 ==> r == Err::<u64, ConvertError>(ConvertError::ShortRead),
{
    let mut src = ByteSource::new(input);
    if src.remaining_len() < 8 {
        return Err(ConvertError::ShortRead);
    }
    let v = src.read_le(8);
    proof {
        lemma_le_nat_bound(input@.subrange(0, 8));
        assert(spec_pow256(8) == 0x1_0000_0000_0000_0000) by {
            reveal_with_fuel(spec_pow256, 9);
        }
    }
    Ok(v)
}

/// Run one whole conversion over an uncompressed stream held in memory.
///
/// Validates the schema and the version tag, then decodes and flattens
/// every record. The result is exactly `spec_convert` on the input bytes:
/// the same stream always yields the same header and rows.
pub fn convert(schema: &Schema, expected_version: u64, input: &Vec<u8>) -> (r: Result<
    Conversion,
    ConvertError,
>)
    requires
        spec_schema_size(*schema) <= usize::MAX,
    ensures
        spec_convert_matches(*schema, expected_version, input@, r),
{
    if !schema.check_well_formed() {
        return Err(ConvertError::HeaderGenerationFailure);
    }
    proof {
        lemma_well_formed_size_positive(*schema);
    }
    let mut src = ByteSource::new(input);
    if src.remaining_len() < 8 {
        return Err(ConvertError::ShortRead);
    }
    let actual = src.read_le(8);
    proof {
        lemma_le_nat_bound(input@.subrange(0, 8));
        assert(spec_pow256(8) == 0x1_0000_0000_0000_0000) by {
            reveal_with_fuel(spec_pow256, 9);
        }
    }
    if actual != expected_version {
        return Err(
            ConvertError::VersionMismatch { expected: expected_version, actual },
        );
    }
    let rsz = match schema.checked_size() {
        Some(z) => z,
        None => {
            proof {
                assert(false);
            }
            return Err(ConvertError::ShortRead);
        },
    };
    let ghost body = input@.subrange(8, input@.len() as int);
    proof {
        assert(src.remaining() =~= body);
    }
    let header = header_columns(schema);
    let mut rows: Vec<Vec<String>> = Vec::new();
    proof {
        assert(spec_rows_view(Seq::<Vec<String>>::empty()) =~= Seq::<Seq<Seq<char>>>::empty());
    }
    while src.remaining_len() >= rsz
        invariant
            src.wf(),
            spec_well_formed(*schema),
            rsz == spec_schema_size(*schema),
            rsz >= 1,
            spec_schema_size(*schema) <= usize::MAX,
            spec_rows_view(rows@) + spec_rows_of(*schema, src.remaining()) == spec_rows_of(
                *schema,
                body,
            ),
            spec_leftover(*schema, src.remaining()) == spec_leftover(*schema, body),
        decreases src.remaining().len(),
    {
        let ghost rem0 = src.remaining();
        let v = match read_record(schema, &mut src) {
            Ok(v) => v,
            Err(_) => {
                proof {
                    assert(false);
                }
                return Err(ConvertError::ShortRead);
            },
        };
        proof {
            let rec = rem0.subrange(0, rsz as int);
            lemma_decoding_conforms(v, *schema, rec);
            lemma_decoding_tokens(v, *schema, rec);
        }
        let row = row_tokens(schema, &v);
        rows.push(row);
        proof {
            assert(spec_rows_view(rows@) =~= spec_rows_view(rows@.subrange(
                0,
                rows@.len() - 1,
            )).push(spec_strings_view(row@)));
            assert(rows@.subrange(0, rows@.len() - 1) =~= rows@.drop_last());
            assert(spec_rows_of(*schema, rem0) == seq![
                spec_tokens(*schema, rem0.subrange(0, rsz as int)),
            ] + spec_rows_of(*schema, src.remaining()));
            assert(spec_rows_view(rows@) + spec_rows_of(*schema, src.remaining())
                =~= spec_rows_view(rows@.drop_last()) + spec_rows_of(*schema, rem0));
        }
    }
    if src.remaining_len() != 0 {
        return Err(ConvertError::Truncated);
    }
    proof {
        assert(spec_rows_of(*schema, src.remaining()) =~= Seq::<Seq<Seq<char>>>::empty());
        assert(spec_rows_view(rows@) =~= spec_rows_of(*schema, body));
    }
    let count = rows.len();
    Ok(Conversion { header, rows, count })
}

} // verus!
