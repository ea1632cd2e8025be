//! End-to-end conversion runs over in-memory streams.
use std::io::Write;

use fdr2csv::driver::{convert, read_version, Conversion};
use fdr2csv::errors::ConvertError;
use fdr2csv::gz::convert_compressed;
use fdr2csv::schema::{Field, LeafKind, Schema};

const VERSION: u64 = 3200001;

fn field(name: &str, schema: Schema) -> Field {
    Field { name: String::from(name), schema }
}

/// A small two-unit schema: each unit has a bus word, a discrete flag and
/// an analog byte; 4 + 1 + 1 = 6 bytes per unit, 12 bytes per record.
fn demo_schema() -> Schema {
    let unit = |prefix: &str| {
        field(
            prefix,
            Schema::Composite(vec![
                field("bus", Schema::Leaf(LeafKind::U32)),
                field("discrete", Schema::Leaf(LeafKind::Flag)),
                field("analog", Schema::Leaf(LeafKind::I8)),
            ]),
        )
    };
    Schema::Composite(vec![unit("unit_1"), unit("unit_2")])
}

fn stream_with(records: &[[u8; 12]]) -> Vec<u8> {
    let mut out = VERSION.to_le_bytes().to_vec();
    for r in records {
        out.extend_from_slice(r);
    }
    out
}

const REC_A: [u8; 12] = [
    0x78, 0x56, 0x34, 0x12, 0x01, 0xFF, // unit_1: bus 0x12345678, flag on, analog -1
    0x00, 0x00, 0x00, 0x00, 0x00, 0x7F, // unit_2: bus 0, flag off, analog 127
];

#[test]
fn header_row_alignment() {
    let schema = demo_schema();
    let input = stream_with(&[REC_A]);
    let c = convert(&schema, VERSION, &input).unwrap();
    assert_eq!(c.header.len(), c.rows[0].len());
}

#[test]
fn expected_header_names() {
    let schema = demo_schema();
    let input = stream_with(&[REC_A]);
    let c = convert(&schema, VERSION, &input).unwrap();
    assert_eq!(
        c.header,
        vec![
            "unit_1.bus",
            "unit_1.discrete",
            "unit_1.analog",
            "unit_2.bus",
            "unit_2.discrete",
            "unit_2.analog",
        ]
    );
}

#[test]
fn header_names_distinct() {
    let schema = demo_schema();
    let input = stream_with(&[REC_A]);
    let c = convert(&schema, VERSION, &input).unwrap();
    for i in 0..c.header.len() {
        for j in (i + 1)..c.header.len() {
            assert_ne!(c.header[i], c.header[j]);
        }
    }
}

#[test]
fn expected_row_values() {
    let schema = demo_schema();
    let input = stream_with(&[REC_A]);
    let c = convert(&schema, VERSION, &input).unwrap();
    assert_eq!(
        c.rows[0],
        vec!["305419896", "true", "-1", "0", "false", "127"]
    );
}

#[test]
fn redecoding_is_deterministic() {
    let schema = demo_schema();
    let input = stream_with(&[REC_A, [7u8; 12], [0u8; 12]]);
    let c1 = convert(&schema, VERSION, &input).unwrap();
    let c2 = convert(&schema, VERSION, &input).unwrap();
    assert_eq!(c1.header, c2.header);
    assert_eq!(c1.rows, c2.rows);
    assert_eq!(c1.count, c2.count);
}

#[test]
fn version_mismatch_yields_no_rows() {
    let schema = demo_schema();
    let mut input = (VERSION + 1).to_le_bytes().to_vec();
    input.extend_from_slice(&REC_A);
    let r = convert(&schema, VERSION, &input);
    match r {
        Err(ConvertError::VersionMismatch { expected, actual }) => {
            assert_eq!(expected, VERSION);
            assert_eq!(actual, VERSION + 1);
        }
        _ => panic!("expected a version mismatch"),
    }
}

#[test]
fn exact_record_count() {
    let schema = demo_schema();
    let input = stream_with(&[REC_A, [0u8; 12], [1u8; 12], REC_A]);
    let c: Conversion = convert(&schema, VERSION, &input).unwrap();
    assert_eq!(c.rows.len(), 4);
    assert_eq!(c.count, 4);
}

#[test]
fn empty_stream_has_zero_records() {
    let schema = demo_schema();
    let input = stream_with(&[]);
    let c = convert(&schema, VERSION, &input).unwrap();
    assert_eq!(c.count, 0);
    assert!(c.rows.is_empty());
    assert_eq!(c.header.len(), 6);
}

#[test]
fn truncated_record_is_an_error() {
    let schema = demo_schema();
    let mut input = stream_with(&[REC_A]);
    input.extend_from_slice(&[1, 2, 3]); // 3 trailing bytes of a 12-byte record
    assert!(matches!(
        convert(&schema, VERSION, &input),
        Err(ConvertError::Truncated)
    ));
}

#[test]
fn short_version_tag_is_an_error() {
    let schema = demo_schema();
    let input = vec![1u8, 2, 3];
    assert!(matches!(
        convert(&schema, VERSION, &input),
        Err(ConvertError::ShortRead)
    ));
}

#[test]
fn bad_schema_fails_header_generation() {
    let empty = Schema::Composite(vec![]);
    let dup = Schema::Composite(vec![
        field("x", Schema::Leaf(LeafKind::U8)),
        field("x", Schema::Leaf(LeafKind::U8)),
    ]);
    let dotted = Schema::Composite(vec![field("a.b", Schema::Leaf(LeafKind::U8))]);
    let input = stream_with(&[]);
    for schema in [empty, dup, dotted] {
        assert!(matches!(
            convert(&schema, VERSION, &input),
            Err(ConvertError::HeaderGenerationFailure)
        ));
    }
}

#[test]
fn reads_version_without_converting() {
    let input = stream_with(&[REC_A]);
    assert_eq!(read_version(&input), Ok(VERSION));
    assert_eq!(read_version(&vec![1u8, 2]), Err(ConvertError::ShortRead));
}

fn gzip(data: &[u8]) -> Vec<u8> {
    let mut enc = flate2::write::GzEncoder::new(Vec::new(), flate2::Compression::default());
    enc.write_all(data).unwrap();
    enc.finish().unwrap()
}

#[test]
fn compressed_stream_converts() {
    let schema = demo_schema();
    let raw = stream_with(&[REC_A, [0u8; 12]]);
    let gz = gzip(&raw);
    assert_ne!(gz, raw);
    let c = convert_compressed(&schema, VERSION, &gz).unwrap();
    let plain = convert(&schema, VERSION, &raw).unwrap();
    assert_eq!(c.header, plain.header);
    assert_eq!(c.rows, plain.rows);
    assert_eq!(c.count, 2);
}

#[test]
fn malformed_envelope_is_an_error() {
    let schema = demo_schema();
    let garbage = vec![0xAAu8; 40];
    assert!(matches!(
        convert_compressed(&schema, VERSION, &garbage),
        Err(ConvertError::Decompression)
    ));
}

#[test]
fn error_kinds_describe_themselves() {
    assert_eq!(
        ConvertError::VersionMismatch { expected: 1, actual: 2 }.describe(),
        "version mismatch"
    );
    assert_eq!(ConvertError::Truncated.describe(), "truncated record");
    assert_eq!(ConvertError::ShortRead.describe(), "short read");
}
