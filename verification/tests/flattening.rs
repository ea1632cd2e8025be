//! The flatteners, the record decoder and the leaf text renderings,
//! exercised directly.
use fdr2csv::bytes::ByteSource;
use fdr2csv::decode::read_record;
use fdr2csv::errors::ConvertError;
use fdr2csv::flatten::{header_columns, row_tokens};
use fdr2csv::schema::{Field, LeafKind, Schema};
use fdr2csv::value::{i64_text, u64_text};

fn field(name: &str, schema: Schema) -> Field {
    Field { name: String::from(name), schema }
}

/// A three-level schema: a flag, a word group and a signed pair.
fn nested_schema() -> Schema {
    Schema::Composite(vec![
        field("flag", Schema::Leaf(LeafKind::Flag)),
        field(
            "words",
            Schema::Composite(vec![
                field("lo", Schema::Leaf(LeafKind::U16)),
                field("hi", Schema::Leaf(LeafKind::U16)),
                field(
                    "wide",
                    Schema::Composite(vec![field("all", Schema::Leaf(LeafKind::U64))]),
                ),
            ]),
        ),
        field(
            "signed",
            Schema::Composite(vec![
                field("a", Schema::Leaf(LeafKind::I16)),
                field("b", Schema::Leaf(LeafKind::I64)),
            ]),
        ),
    ])
}

#[test]
fn nested_header_paths() {
    let cols = header_columns(&nested_schema());
    assert_eq!(
        cols,
        vec!["flag", "words.lo", "words.hi", "words.wide.all", "signed.a", "signed.b"]
    );
}

#[test]
fn roundtrip_known_leaves() {
    // flag = true, lo = 42, hi = 65535, all = u64::MAX, a = -1, b = i64::MIN
    let mut bytes: Vec<u8> = vec![2];
    bytes.extend_from_slice(&42u16.to_le_bytes());
    bytes.extend_from_slice(&0xFFFFu16.to_le_bytes());
    bytes.extend_from_slice(&u64::MAX.to_le_bytes());
    bytes.extend_from_slice(&(-1i16).to_le_bytes());
    bytes.extend_from_slice(&i64::MIN.to_le_bytes());
    let schema = nested_schema();
    let mut src = ByteSource::new(&bytes);
    let record = read_record(&schema, &mut src).unwrap();
    let row = row_tokens(&schema, &record);
    assert_eq!(
        row,
        vec![
            "true",
            "42",
            "65535",
            "18446744073709551615",
            "-1",
            "-9223372036854775808",
        ]
    );
    assert_eq!(header_columns(&schema).len(), row.len());
}

#[test]
fn zero_flag_renders_false() {
    let schema = Schema::Composite(vec![field("f", Schema::Leaf(LeafKind::Flag))]);
    let bytes = vec![0u8];
    let mut src = ByteSource::new(&bytes);
    let record = read_record(&schema, &mut src).unwrap();
    assert_eq!(row_tokens(&schema, &record), vec!["false"]);
}

#[test]
fn little_endian_decoding() {
    let schema = Schema::Composite(vec![
        field("w", Schema::Leaf(LeafKind::U16)),
        field("d", Schema::Leaf(LeafKind::U32)),
    ]);
    let bytes = vec![0x34, 0x12, 0x78, 0x56, 0x34, 0x12];
    let mut src = ByteSource::new(&bytes);
    let record = read_record(&schema, &mut src).unwrap();
    assert_eq!(row_tokens(&schema, &record), vec!["4660", "305419896"]);
}

#[test]
fn short_record_read_fails() {
    let schema = Schema::Composite(vec![field("d", Schema::Leaf(LeafKind::U32))]);
    let bytes = vec![1u8, 2, 3];
    let mut src = ByteSource::new(&bytes);
    assert!(matches!(
        read_record(&schema, &mut src),
        Err(ConvertError::ShortRead)
    ));
}

#[test]
fn record_sizes_add_up() {
    assert_eq!(nested_schema().checked_size(), Some(1 + 2 + 2 + 8 + 2 + 8));
    assert_eq!(Schema::Leaf(LeafKind::I32).checked_size(), Some(4));
}

#[test]
fn well_formedness_check() {
    assert!(nested_schema().check_well_formed());
    assert!(Schema::Leaf(LeafKind::U8).check_well_formed());
    assert!(!Schema::Composite(vec![]).check_well_formed());
    assert!(!Schema::Composite(vec![field("", Schema::Leaf(LeafKind::U8))]).check_well_formed());
    assert!(!Schema::Composite(vec![
        field("a", Schema::Leaf(LeafKind::U8)),
        field("a", Schema::Leaf(LeafKind::U8)),
    ])
    .check_well_formed());
    assert!(!Schema::Composite(vec![field(
        "outer",
        Schema::Composite(vec![]),
    )])
    .check_well_formed());
}

#[test]
fn byte_and_word_leaves() {
    let schema = Schema::Composite(vec![
        field("b", Schema::Leaf(LeafKind::U8)),
        field("w", Schema::Leaf(LeafKind::I32)),
    ]);
    let bytes = vec![0xFF, 0xFE, 0xFF, 0xFF, 0xFF]; // 255, then -2 little-endian
    let mut src = ByteSource::new(&bytes);
    let record = read_record(&schema, &mut src).unwrap();
    assert_eq!(row_tokens(&schema, &record), vec!["255", "-2"]);
}

#[test]
fn decimal_renderings() {
    assert_eq!(u64_text(0), "0");
    assert_eq!(u64_text(10), "10");
    assert_eq!(u64_text(305419896), "305419896");
    assert_eq!(i64_text(0), "0");
    assert_eq!(i64_text(-7), "-7");
    assert_eq!(i64_text(i64::MAX), "9223372036854775807");
    assert_eq!(i64_text(i64::MIN), "-9223372036854775808");
}
