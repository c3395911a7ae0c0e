//! Tests of the wire codec: rendering, parsing, fences, and keys.

use discord_storage::numeral::{parse_key, render_key};
use discord_storage::value::{ColumnDef, ColumnUnique, DataType, Field, Row, Schema, Value};

fn plain_column(name: &str, data_type: DataType) -> ColumnDef {
    ColumnDef {
        name: name.as_bytes().to_vec(),
        data_type,
        nullable: false,
        default: None,
        comment: None,
        unique: ColumnUnique::Plain,
    }
}

fn user_schema() -> Schema {
    Schema {
        table_name: b"User".to_vec(),
        column_defs: Some(vec![
            plain_column("id", DataType::Int),
            ColumnDef {
                name: b"name".to_vec(),
                data_type: DataType::Text,
                nullable: true,
                default: Some(br#"{"Literal":{"QuotedString":"glue"}}"#.to_vec()),
                comment: None,
                unique: ColumnUnique::Plain,
            },
        ]),
        indexes: None,
        engine: None,
        foreign_keys: None,
        comment: None,
    }
}

/// The fenced block around the given inner text, as the codec writes
/// it.
fn fenced(inner: &str) -> Vec<u8> {
    format!("\n```json\n{inner}\n```").into_bytes()
}

#[test]
fn to_codeblock() {
    let schema = Schema {
        table_name: b"User".to_vec(),
        column_defs: Some(vec![
            plain_column("id", DataType::Int),
            plain_column("name", DataType::Text),
        ]),
        indexes: None,
        engine: None,
        foreign_keys: None,
        comment: None,
    };
    let inner = concat_parts(&[
        r#"{"table_name": "User", "column_defs": ["#,
        r#"{"name": "id", "data_type": "Int", "nullable": false, "default": null, "#,
        r#""comment": null, "unique": "plain"}, "#,
        r#"{"name": "name", "data_type": "Text", "nullable": false, "default": null, "#,
        r#""comment": null, "unique": "plain"}"#,
        r#"], "indexes": null, "engine": null, "foreign_keys": null, "comment": null}"#,
    ]);
    assert_eq!(schema.to_codeblock(), fenced(&inner));
}

fn concat_parts(parts: &[&str]) -> String {
    let mut out = String::new();
    for p in parts {
        out.push_str(p);
    }
    out
}

#[test]
fn from_str() {
    // the schema of the original shape: an Int column and a Text
    // column that is nullable with a quoted-string default
    let text = user_schema().to_codeblock();
    let schema = Schema::from_codeblock(&text).unwrap();
    assert_eq!(schema, user_schema());
}

#[test]
fn schema_roundtrip_with_all_payloads() {
    let schema = Schema {
        table_name: b"Everything".to_vec(),
        column_defs: Some(vec![
            plain_column("b", DataType::Boolean),
            plain_column("d", DataType::Date),
            plain_column("ts", DataType::Timestamp),
            plain_column("u", DataType::Uint64),
            plain_column("de", DataType::Decimal),
            ColumnDef {
                name: b"k".to_vec(),
                data_type: DataType::Uuid,
                nullable: true,
                default: None,
                comment: Some(b"an identifier".to_vec()),
                unique: ColumnUnique::Unique,
            },
        ]),
        indexes: Some(br#"[{"name":"idx"}]"#.to_vec()),
        engine: Some(b"memory".to_vec()),
        foreign_keys: Some(b"[]".to_vec()),
        comment: Some(b"a table".to_vec()),
    };
    let back = Schema::from_codeblock(&schema.to_codeblock()).unwrap();
    assert_eq!(back, schema);
}

#[test]
fn schemaless_roundtrip() {
    let schema = Schema {
        table_name: b"notes".to_vec(),
        column_defs: None,
        indexes: None,
        engine: None,
        foreign_keys: None,
        comment: None,
    };
    let block = schema.to_codeblock();
    let inner = r#"{"table_name": "notes", "column_defs": null, "indexes": null, "engine": null, "foreign_keys": null, "comment": null}"#;
    assert_eq!(block, fenced(inner));
    let back = Schema::from_codeblock(&block).unwrap();
    assert_eq!(back, schema);
}

#[test]
fn row_roundtrip_values() {
    let row = Row::Values(vec![
        Value::Int(1),
        Value::Str(b"glue".to_vec()),
        Value::Null,
        Value::Bool(true),
        Value::Bool(false),
        Value::Int(-42),
        Value::Int(i64::MIN),
        Value::Int(i64::MAX),
    ]);
    let block = row.to_codeblock();
    let back = Row::from_codeblock(&block).unwrap();
    assert_eq!(back, row);
}

#[test]
fn row_roundtrip_every_width() {
    let row = Row::Values(vec![
        Value::I8(i8::MIN),
        Value::I8(i8::MAX),
        Value::I16(-300),
        Value::I32(70_000),
        Value::I128(i128::MIN),
        Value::I128(i128::MAX),
        Value::U8(255),
        Value::U16(65_535),
        Value::U32(4_000_000_000),
        Value::U64(u64::MAX),
        Value::U128(u128::MAX),
        Value::U128(0),
    ]);
    let back = Row::from_codeblock(&row.to_codeblock()).unwrap();
    assert_eq!(back, row);
}

#[test]
fn row_roundtrip_calendar_and_opaque() {
    let row = Row::Values(vec![
        Value::Date(738_000),
        Value::Date(-1),
        Value::Time(86_399, 999_999_999),
        Value::Timestamp(-62_135_596_800, 0),
        Value::Timestamp(1_700_000_000, 123_456_789),
        Value::IntervalMonth(-14),
        Value::IntervalMicrosecond(86_400_000_000),
        Value::Uuid(0x0123_4567_89AB_CDEF_0123_4567_89AB_CDEF),
        Value::Decimal(b"-123.456".to_vec()),
        Value::Inet(b"2001:db8::1".to_vec()),
        Value::Bytea(vec![0x00, 0x22, 0x5C, 0xFF]),
    ]);
    let back = Row::from_codeblock(&row.to_codeblock()).unwrap();
    assert_eq!(back, row);
}

#[test]
fn row_roundtrip_bits_and_nested() {
    let row = Row::Values(vec![
        Value::F32Bits(0x7FC0_0000),
        Value::F32Bits(0),
        Value::F64Bits(u64::MAX),
        Value::F64Bits(0x3FF0_0000_0000_0000),
        Value::Point(0x4000_0000_0000_0000, 0xC000_0000_0000_0000),
        Value::List(br#"[{"I64":1},{"Str":"x"}]"#.to_vec()),
        Value::Dict(br#"{"k":{"Bool":true}}"#.to_vec()),
    ]);
    let back = Row::from_codeblock(&row.to_codeblock()).unwrap();
    assert_eq!(back, row);
}

#[test]
fn bits_exact_rendering() {
    let row = Row::Values(vec![Value::F32Bits(5), Value::Point(1, 2)]);
    assert_eq!(row.to_codeblock(), fenced("[F32(5), Point(1, 2)]"));
}

#[test]
fn bits_reject_out_of_range() {
    assert!(Row::from_codeblock(b"[F32(4294967296)]").is_err());
    assert!(Row::from_codeblock(b"[F32(-1)]").is_err());
    assert!(Row::from_codeblock(b"[Point(1)]").is_err());
    assert!(Row::from_codeblock(b"[Point(1, 18446744073709551616)]").is_err());
}

#[test]
fn tagged_value_exact_rendering() {
    let row = Row::Values(vec![Value::U8(7), Value::Date(-3), Value::Time(1, 2)]);
    assert_eq!(row.to_codeblock(), fenced("[U8(7), Date(-3), Time(1, 2)]"));
}

#[test]
fn tagged_value_rejects_out_of_range() {
    assert!(Row::from_codeblock(b"[U8(256)]").is_err());
    assert!(Row::from_codeblock(b"[U8(-1)]").is_err());
    assert!(Row::from_codeblock(b"[I8(128)]").is_err());
    assert_eq!(
        Row::from_codeblock(b"[I8(-128)]").unwrap(),
        Row::Values(vec![Value::I8(i8::MIN)])
    );
    assert!(Row::from_codeblock(b"[Time(1, 5000000000)]").is_err());
    assert!(Row::from_codeblock(b"[U128(340282366920938463463374607431768211456)]").is_err());
}

#[test]
fn row_exact_rendering() {
    let row = Row::Values(vec![Value::Int(1), Value::Str(b"glue".to_vec())]);
    assert_eq!(row.to_codeblock(), fenced(r#"[1, "glue"]"#));
}

#[test]
fn row_roundtrip_fields() {
    let row = Row::Fields(vec![
        Field {
            name: b"id".to_vec(),
            value: Value::Int(7),
        },
        Field {
            name: br#"text with "quotes" and \slashes\"#.to_vec(),
            value: Value::Str(br#"a "quoted" value"#.to_vec()),
        },
    ]);
    let back = Row::from_codeblock(&row.to_codeblock()).unwrap();
    assert_eq!(back, row);
}

#[test]
fn empty_rows_roundtrip() {
    for row in [Row::Values(vec![]), Row::Fields(vec![])] {
        let back = Row::from_codeblock(&row.to_codeblock()).unwrap();
        assert_eq!(back, row);
    }
}

#[test]
fn decode_tolerates_missing_fence() {
    let row = Row::from_codeblock(br#"[1, "glue"]"#).unwrap();
    assert_eq!(
        row,
        Row::Values(vec![Value::Int(1), Value::Str(b"glue".to_vec())])
    );
}

#[test]
fn decode_tolerates_surrounding_whitespace() {
    let row = Row::from_codeblock(b"  \n```json\n[true]\n```  \n").unwrap();
    assert_eq!(row, Row::Values(vec![Value::Bool(true)]));
}

#[test]
fn decode_rejects_garbage() {
    assert!(Row::from_codeblock(b"not a row").is_err());
    assert!(Row::from_codeblock(b"[1,]").is_err());
    assert!(Row::from_codeblock(b"[1, 2] trailing").is_err());
    assert!(Row::from_codeblock(b"[Uuid(12]").is_err());
    assert!(Row::from_codeblock(b"[Interval(3)]").is_err());
    assert!(Schema::from_codeblock(br#"{"wrong": 1}"#).is_err());
    assert!(Row::from_codeblock(b"").is_err());
}

#[test]
fn decode_rejects_out_of_range_int() {
    assert!(Row::from_codeblock(b"[9223372036854775808]").is_err());
    let row = Row::from_codeblock(b"[-9223372036854775808]").unwrap();
    assert_eq!(row, Row::Values(vec![Value::Int(i64::MIN)]));
}

#[test]
fn render_and_parse_keys() {
    assert_eq!(render_key(0), b"0".to_vec());
    assert_eq!(render_key(881000000000000000), b"881000000000000000".to_vec());
    assert_eq!(parse_key(b"881000000000000000"), Some(881000000000000000));
    assert_eq!(parse_key(b"0"), Some(0));
    assert_eq!(parse_key(b"007"), Some(7));
    assert_eq!(parse_key(b""), None);
    assert_eq!(parse_key(b"12a"), None);
    assert_eq!(parse_key(b"-3"), None);
    assert_eq!(parse_key(b"18446744073709551615"), Some(u64::MAX));
    assert_eq!(parse_key(b"18446744073709551616"), None);
    assert_eq!(parse_key(b"99999999999999999999999"), None);
}
