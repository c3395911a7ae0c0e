//! Tests of the storage adapter over the platform model: schema
//! lifecycle, row lifecycle, ordering, and error reporting.

use discord_storage::error::StorageError;
use discord_storage::remote::{Channel, Guild, Message};
use discord_storage::store::{KeyedRow, Storage};
use discord_storage::value::{ColumnDef, ColumnUnique, DataType, Field, Row, Schema, Value};

fn empty_storage() -> Storage {
    Storage::new(Guild {
        channels: Vec::new(),
        next_id: 1,
    })
}

fn user_schema() -> Schema {
    Schema {
        table_name: b"User".to_vec(),
        column_defs: Some(vec![
            ColumnDef {
                name: b"id".to_vec(),
                data_type: DataType::Int,
                nullable: false,
                default: None,
                comment: None,
                unique: ColumnUnique::Plain,
            },
            ColumnDef {
                name: b"name".to_vec(),
                data_type: DataType::Text,
                nullable: true,
                default: None,
                comment: None,
                unique: ColumnUnique::Plain,
            },
        ]),
        indexes: None,
        engine: None,
        foreign_keys: None,
        comment: None,
    }
}

fn row(id: i64, name: &str) -> Row {
    Row::Values(vec![Value::Int(id), Value::Str(name.as_bytes().to_vec())])
}

#[test]
fn extended_values_roundtrip_through_storage() {
    let mut st = empty_storage();
    st.insert_schema(&user_schema()).unwrap();
    let wide = Row::Values(vec![
        Value::U64(u64::MAX),
        Value::Date(738_000),
        Value::Timestamp(1_700_000_000, 500),
        Value::Decimal(b"9.75".to_vec()),
        Value::Bytea(vec![0, 1, 2, 255]),
    ]);
    st.append_data(b"User", &vec![wide.clone()]).unwrap();
    assert_eq!(st.fetch_data(b"user", b"3").unwrap(), Some(wide));
}

#[test]
fn schema_case_insensitive_fetch() {
    let mut st = empty_storage();
    st.insert_schema(&user_schema()).unwrap();
    let lower = st.fetch_schema(b"user").unwrap().unwrap();
    let upper = st.fetch_schema(b"USER").unwrap().unwrap();
    let mixed = st.fetch_schema(b"User").unwrap().unwrap();
    assert_eq!(lower, user_schema());
    assert_eq!(upper, lower);
    assert_eq!(mixed, lower);
}

#[test]
fn schema_write_once() {
    let mut st = empty_storage();
    st.insert_schema(&user_schema()).unwrap();
    let second = Schema {
        table_name: b"USER".to_vec(),
        column_defs: None,
        indexes: None,
        engine: None,
        foreign_keys: None,
        comment: None,
    };
    assert_eq!(st.insert_schema(&second), Err(StorageError::AlreadyPinned));
    let kept = st.fetch_schema(b"user").unwrap().unwrap();
    assert_eq!(kept, user_schema());
}

#[test]
fn primary_key_rejected_before_any_effect() {
    let mut st = empty_storage();
    let schema = Schema {
        table_name: b"User".to_vec(),
        column_defs: Some(vec![ColumnDef {
            name: b"id".to_vec(),
            data_type: DataType::Int,
            nullable: false,
            default: None,
            comment: None,
            unique: ColumnUnique::Primary,
        }]),
        indexes: None,
        engine: None,
        foreign_keys: None,
        comment: None,
    };
    assert_eq!(st.insert_schema(&schema), Err(StorageError::PrimaryKey));
    // nothing was created: the table still does not exist
    assert_eq!(st.fetch_schema(b"user"), Ok(None));
    assert!(st.guild.channels.is_empty());
}

#[test]
fn append_assigns_keys_and_rows_are_fetchable() {
    let mut st = empty_storage();
    st.insert_schema(&user_schema()).unwrap();
    // channel took id 1, the schema message id 2; rows get 3, 4, 5
    st.append_data(b"User", &vec![row(1, "a"), row(2, "b"), row(3, "c")])
        .unwrap();
    assert_eq!(st.fetch_data(b"user", b"3").unwrap(), Some(row(1, "a")));
    assert_eq!(st.fetch_data(b"user", b"4").unwrap(), Some(row(2, "b")));
    assert_eq!(st.fetch_data(b"user", b"5").unwrap(), Some(row(3, "c")));
    assert_eq!(st.fetch_data(b"user", b"6").unwrap(), None);
}

#[test]
fn scan_returns_rows_oldest_first() {
    let mut st = empty_storage();
    st.insert_schema(&user_schema()).unwrap();
    st.append_data(b"User", &vec![row(1, "a"), row(2, "b"), row(3, "c")])
        .unwrap();
    let scanned = st.scan_data(b"user").unwrap();
    let expected = vec![
        KeyedRow {
            key: b"3".to_vec(),
            row: row(1, "a"),
        },
        KeyedRow {
            key: b"4".to_vec(),
            row: row(2, "b"),
        },
        KeyedRow {
            key: b"5".to_vec(),
            row: row(3, "c"),
        },
    ];
    assert_eq!(scanned, expected);
}

#[test]
fn scan_skips_schema_pin_and_system_messages() {
    let mut st = empty_storage();
    st.insert_schema(&user_schema()).unwrap();
    st.append_data(b"User", &vec![row(1, "a")]).unwrap();
    // a system notification (as the platform posts after a pin)
    st.guild.channels[0].messages.push(Message {
        id: 100,
        content: Vec::new(),
        pinned: false,
        regular: false,
    });
    let scanned = st.scan_data(b"user").unwrap();
    assert_eq!(scanned.len(), 1);
    assert_eq!(scanned[0].key, b"3".to_vec());
}

#[test]
fn upsert_existing_key_edits_in_place() {
    let mut st = empty_storage();
    st.insert_schema(&user_schema()).unwrap();
    st.append_data(b"User", &vec![row(1, "a"), row(2, "b")]).unwrap();
    st.insert_data(
        b"User",
        &vec![KeyedRow {
            key: b"3".to_vec(),
            row: row(9, "edited"),
        }],
    )
    .unwrap();
    // same key, new content, no new row
    assert_eq!(st.fetch_data(b"user", b"3").unwrap(), Some(row(9, "edited")));
    assert_eq!(st.scan_data(b"user").unwrap().len(), 2);
}

#[test]
fn upsert_missing_key_creates_under_new_key() {
    let mut st = empty_storage();
    st.insert_schema(&user_schema()).unwrap();
    st.append_data(b"User", &vec![row(1, "a")]).unwrap();
    st.insert_data(
        b"User",
        &vec![KeyedRow {
            key: b"777".to_vec(),
            row: row(2, "b"),
        }],
    )
    .unwrap();
    // the requested key was not taken over; the platform assigned 4
    assert_eq!(st.fetch_data(b"user", b"777").unwrap(), None);
    assert_eq!(st.fetch_data(b"user", b"4").unwrap(), Some(row(2, "b")));
}

#[test]
fn upsert_rejects_non_numeric_key() {
    let mut st = empty_storage();
    st.insert_schema(&user_schema()).unwrap();
    let r = st.insert_data(
        b"User",
        &vec![KeyedRow {
            key: b"not-a-key".to_vec(),
            row: row(1, "a"),
        }],
    );
    assert_eq!(r, Err(StorageError::InvalidKey));
}

#[test]
fn delete_then_fetch_returns_none() {
    let mut st = empty_storage();
    st.insert_schema(&user_schema()).unwrap();
    st.append_data(b"User", &vec![row(1, "a"), row(2, "b")]).unwrap();
    st.delete_data(b"User", &vec![b"3".to_vec()]).unwrap();
    assert_eq!(st.fetch_data(b"user", b"3").unwrap(), None);
    assert_eq!(st.fetch_data(b"user", b"4").unwrap(), Some(row(2, "b")));
}

#[test]
fn delete_missing_key_fails() {
    let mut st = empty_storage();
    st.insert_schema(&user_schema()).unwrap();
    assert_eq!(
        st.delete_data(b"User", &vec![b"3".to_vec()]),
        Err(StorageError::NotFound)
    );
    assert_eq!(
        st.delete_data(b"User", &vec![b"xyz".to_vec()]),
        Err(StorageError::InvalidKey)
    );
}

#[test]
fn missing_table_behavior() {
    let mut st = empty_storage();
    assert_eq!(st.fetch_schema(b"ghost"), Ok(None));
    assert_eq!(st.fetch_data(b"ghost", b"1"), Ok(None));
    assert_eq!(st.scan_data(b"ghost"), Ok(Vec::new()));
    assert_eq!(
        st.append_data(b"ghost", &vec![row(1, "a")]),
        Err(StorageError::NotFound)
    );
    assert_eq!(
        st.insert_data(b"ghost", &Vec::new()),
        Err(StorageError::NotFound)
    );
    assert_eq!(
        st.delete_data(b"ghost", &Vec::new()),
        Err(StorageError::NotFound)
    );
    assert_eq!(st.delete_schema(b"ghost"), Err(StorageError::NotFound));
}

#[test]
fn invalid_key_reported_before_table_lookup() {
    let st = empty_storage();
    assert_eq!(st.fetch_data(b"ghost", b"abc"), Err(StorageError::InvalidKey));
}

#[test]
fn delete_schema_drops_table_and_rows() {
    let mut st = empty_storage();
    st.insert_schema(&user_schema()).unwrap();
    st.append_data(b"User", &vec![row(1, "a")]).unwrap();
    st.delete_schema(b"USER").unwrap();
    assert_eq!(st.fetch_schema(b"user"), Ok(None));
    assert_eq!(st.scan_data(b"user"), Ok(Vec::new()));
}

#[test]
fn schemaless_channel_yields_stub_schema() {
    let mut st = empty_storage();
    st.guild.channels.push(Channel {
        id: 1,
        name: b"freeform".to_vec(),
        messages: Vec::new(),
    });
    st.guild.next_id = 2;
    let schema = st.fetch_schema(b"FreeForm").unwrap().unwrap();
    assert_eq!(schema.table_name, b"freeform".to_vec());
    assert_eq!(schema.column_defs, None);
}

#[test]
fn fetch_all_schemas_lists_every_channel() {
    let mut st = empty_storage();
    st.insert_schema(&user_schema()).unwrap();
    st.guild.channels.push(Channel {
        id: 50,
        name: b"freeform".to_vec(),
        messages: Vec::new(),
    });
    st.guild.next_id = 51;
    let schemas = st.fetch_all_schemas().unwrap();
    assert_eq!(schemas.len(), 2);
    assert_eq!(schemas[0], user_schema());
    assert_eq!(schemas[1].table_name, b"freeform".to_vec());
    assert_eq!(schemas[1].column_defs, None);
}

#[test]
fn undecodable_pin_is_a_decode_error() {
    let mut st = empty_storage();
    st.guild.channels.push(Channel {
        id: 1,
        name: b"broken".to_vec(),
        messages: vec![Message {
            id: 2,
            content: b"gibberish".to_vec(),
            pinned: true,
            regular: true,
        }],
    });
    st.guild.next_id = 3;
    assert_eq!(st.fetch_schema(b"broken"), Err(StorageError::Decode));
    assert_eq!(st.fetch_all_schemas(), Err(StorageError::Decode));
}

#[test]
fn undecodable_row_falls_back_to_raw_content() {
    let mut st = empty_storage();
    st.guild.channels.push(Channel {
        id: 1,
        name: b"chat".to_vec(),
        messages: vec![Message {
            id: 2,
            content: b"hello there".to_vec(),
            pinned: false,
            regular: true,
        }],
    });
    st.guild.next_id = 3;
    let expected = Row::Fields(vec![Field {
        name: b"content".to_vec(),
        value: Value::Str(b"hello there".to_vec()),
    }]);
    assert_eq!(st.fetch_data(b"chat", b"2").unwrap(), Some(expected.clone()));
    let scanned = st.scan_data(b"chat").unwrap();
    assert_eq!(scanned.len(), 1);
    assert_eq!(scanned[0].row, expected);
}

#[test]
fn insert_schema_reuses_existing_pinless_channel() {
    let mut st = empty_storage();
    st.guild.channels.push(Channel {
        id: 1,
        name: b"user".to_vec(),
        messages: Vec::new(),
    });
    st.guild.next_id = 2;
    st.insert_schema(&user_schema()).unwrap();
    assert_eq!(st.guild.channels.len(), 1);
    assert_eq!(st.fetch_schema(b"user").unwrap().unwrap(), user_schema());
}
