//! The storage adapter's operations, stated over the platform model
//! and implemented executably against it.
//!
//! Each operation is specified by a total spec function over the model
//! (`spec_*`), and the executable methods of [`Storage`] are proved to
//! return and mutate exactly as those functions say. The transport
//! that replays these operations against the real platform performs
//! one remote call per model step.
//!
//! Policy choices this adapter fixes: a row whose content fails to
//! decode is returned as a one-field raw-content row (never an error),
//! both when fetched singly and when scanned; a channel without a pin
//! counts as a schemaless table and contributes a column-less schema
//! to the schema listing.

use vstd::prelude::*;

use crate::codec::{dec_row, dec_schema, fence_wrap, ser_row, ser_schema, strip_fence};
use crate::error::StorageError;
use crate::name::{lower, normalize_name};
use crate::numeral::{dec_digits, parse_key, parse_key_spec, render_key};
use crate::remote::{
    chan_views, find_chan, find_msg, is_data_msg, lemma_chan_views_push, lemma_chan_views_remove,
    lemma_chan_views_update, lemma_find_chan, lemma_find_msg, lemma_msg_views_push,
    lemma_msg_views_remove, lemma_msg_views_update, lemma_pinned_of_first, lemma_pinned_of_none,
    msg_views, Channel, ChannelV, Guild, GuildV, Message, MessageV,
};
use crate::value::{row_views, Field, FieldV, Row, RowV, Schema, SchemaV, ValueV};

verus! {

/// A scanned row together with its key (the message identifier in
/// decimal).
#[derive(Debug, PartialEq, Eq)]
pub struct KeyedRow {
    pub key: Vec<u8>,
    pub row: Row,
}

/// The mathematical view of a [`KeyedRow`].
#[verifier::ext_equal]
pub struct KeyedRowV {
    pub key: Seq<u8>,
    pub row: RowV,
}

impl View for KeyedRow {
    type V = KeyedRowV;

    open spec fn view(&self) -> KeyedRowV {
        KeyedRowV { key: self.key@, row: self.row@ }
    }
}

/// The views of a keyed-row list, element by element.
pub open spec fn keyed_views(s: Seq<KeyedRow>) -> Seq<KeyedRowV> {
    s.map_values(|k: KeyedRow| k@)
}

/// The views of a schema list, element by element.
pub open spec fn schema_views(s: Seq<Schema>) -> Seq<SchemaV> {
    s.map_values(|v: Schema| v@)
}

/// The views of a key list, element by element.
pub open spec fn key_views(ks: Seq<Vec<u8>>) -> Seq<Seq<u8>> {
    ks.map_values(|k: Vec<u8>| k@)
}

/// The field name `content`, used by the raw-content fallback row.
pub open spec fn content_field() -> Seq<u8> {
    seq![0x63, 0x6F, 0x6E, 0x74, 0x65, 0x6E, 0x74]
}

/// The row a stored content denotes: its decoding, or the one-field
/// raw-content fallback when it does not decode.
pub open spec fn row_of_content(c: Seq<u8>) -> RowV {
    match dec_row(strip_fence(c)) {
        Option::Some(r) => r,
        Option::None => RowV::Fields(
            seq![FieldV { name: content_field(), value: ValueV::Str(c) }],
        ),
    }
}

/// The schema of a table without one: no columns, no indexes, no
/// engine clause, no foreign keys, no comment — only the name.
pub open spec fn schemaless_of(name: Seq<u8>) -> SchemaV {
    SchemaV {
        table_name: name,
        column_defs: Option::None,
        indexes: Option::None,
        engine: Option::None,
        foreign_keys: Option::None,
        comment: Option::None,
    }
}

/// The schema a channel holds: the decoding of its first pin, a
/// column-less schema named after the channel when it has no pin, or
/// a decode error.
pub open spec fn spec_get_schema(ch: ChannelV) -> Result<SchemaV, StorageError> {
    if ch.pins().len() == 0 {
        Result::Ok(schemaless_of(ch.name))
    } else {
        match dec_schema(strip_fence(ch.pins()[0].content)) {
            Option::Some(v) => Result::Ok(v),
            Option::None => Result::Err(StorageError::Decode),
        }
    }
}

/// Schema lookup: `None` for an unknown table, the channel's schema
/// otherwise; only a decode failure is an error.
pub open spec fn spec_fetch_schema(g: GuildV, table: Seq<u8>) -> Result<
    Option<SchemaV>,
    StorageError,
> {
    match find_chan(g.channels, lower(table)) {
        Option::None => Result::Ok(Option::None),
        Option::Some(ci) => match spec_get_schema(g.channels[ci]) {
            Result::Ok(v) => Result::Ok(Option::Some(v)),
            Result::Err(e) => Result::Err(e),
        },
    }
}

/// The schemas of all channels, in namespace order; the first decode
/// failure aborts the listing.
pub open spec fn spec_all_schemas(cs: Seq<ChannelV>) -> Result<Seq<SchemaV>, StorageError>
    decreases cs.len(),
{
    if cs.len() == 0 {
        Result::Ok(Seq::<SchemaV>::empty())
    } else {
        match spec_get_schema(cs[0]) {
            Result::Err(e) => Result::Err(e),
            Result::Ok(v) => match spec_all_schemas(cs.skip(1)) {
                Result::Err(e) => Result::Err(e),
                Result::Ok(rest) => Result::Ok(seq![v] + rest),
            },
        }
    }
}

/// Row lookup by key: the key must be numeric; an unknown table and
/// an absent message are both `None`, not an error.
pub open spec fn spec_fetch_data(g: GuildV, table: Seq<u8>, key: Seq<u8>) -> Result<
    Option<RowV>,
    StorageError,
> {
    match parse_key_spec(key) {
        Option::None => Result::Err(StorageError::InvalidKey),
        Option::Some(id) => match find_chan(g.channels, lower(table)) {
            Option::None => Result::Ok(Option::None),
            Option::Some(ci) => match find_msg(g.channels[ci].messages, id) {
                Option::None => Result::Ok(Option::None),
                Option::Some(mi) => Result::Ok(
                    Option::Some(row_of_content(g.channels[ci].messages[mi].content)),
                ),
            },
        },
    }
}

/// The keyed row a data message denotes.
pub open spec fn keyed_of(m: MessageV) -> KeyedRowV {
    KeyedRowV { key: dec_digits(m.id as nat), row: row_of_content(m.content) }
}

/// The keyed rows a message list denotes: one per data message, in
/// stored (oldest-first) order.
pub open spec fn scan_of(ms: Seq<MessageV>) -> Seq<KeyedRowV>
    decreases ms.len(),
{
    if ms.len() == 0 {
        Seq::<KeyedRowV>::empty()
    } else if is_data_msg(ms[0]) {
        seq![keyed_of(ms[0])] + scan_of(ms.skip(1))
    } else {
        scan_of(ms.skip(1))
    }
}

/// The keyed rows a channel's data messages denote, oldest first.
pub open spec fn scan_rows(ch: ChannelV) -> Seq<KeyedRowV> {
    scan_of(ch.messages)
}

/// A table scan: every regular, unpinned message of the channel, as
/// keyed rows, oldest first; an unknown table scans as empty, not as
/// an error.
pub open spec fn spec_scan_data(g: GuildV, table: Seq<u8>) -> Result<Seq<KeyedRowV>, StorageError> {
    match find_chan(g.channels, lower(table)) {
        Option::None => Result::Ok(Seq::<KeyedRowV>::empty()),
        Option::Some(ci) => Result::Ok(scan_rows(g.channels[ci])),
    }
}

/// The message that stores a row, as posted with identifier `id`.
pub open spec fn msg_of_row(r: RowV, id: u64) -> MessageV {
    MessageV { id, content: fence_wrap(ser_row(r)), pinned: false, regular: true }
}

/// The messages that store `rows`, with identifiers assigned in order
/// from `next`.
pub open spec fn rows_msgs(rows: Seq<RowV>, next: u64) -> Seq<MessageV> {
    Seq::new(rows.len(), |i: int| msg_of_row(rows[i], (next + i) as u64))
}

/// Schema insertion: rejected outright on a primary key; otherwise the
/// channel is resolved or created, and the schema is posted and pinned
/// unless a pin already exists. A channel created before the pin check
/// fails stays created.
pub open spec fn spec_insert_schema(g: GuildV, sc: SchemaV) -> (GuildV, Result<
    (),
    StorageError,
>) {
    if sc.has_primary_key() {
        (g, Result::Err(StorageError::PrimaryKey))
    } else {
        let lname = lower(sc.table_name);
        let (g1, ci) = match find_chan(g.channels, lname) {
            Option::Some(ci) => (g, ci),
            Option::None => (
                GuildV {
                    channels: g.channels.push(
                        ChannelV {
                            id: g.next_id,
                            name: lname,
                            messages: Seq::<MessageV>::empty(),
                        },
                    ),
                    next_id: (g.next_id + 1) as u64,
                },
                g.channels.len() as int,
            ),
        };
        let ch = g1.channels[ci];
        if ch.pins().len() > 0 {
            (g1, Result::Err(StorageError::AlreadyPinned))
        } else {
            let m = MessageV {
                id: g1.next_id,
                content: fence_wrap(ser_schema(sc)),
                pinned: true,
                regular: true,
            };
            (
                GuildV {
                    channels: g1.channels.update(
                        ci,
                        ChannelV { messages: ch.messages.push(m), ..ch },
                    ),
                    next_id: (g1.next_id + 1) as u64,
                },
                Result::Ok(()),
            )
        }
    }
}

/// Schema deletion: the channel is removed outright, rows and all; an
/// unknown table is an error.
pub open spec fn spec_delete_schema(g: GuildV, table: Seq<u8>) -> (GuildV, Result<
    (),
    StorageError,
>) {
    match find_chan(g.channels, lower(table)) {
        Option::None => (g, Result::Err(StorageError::NotFound)),
        Option::Some(ci) => (
            GuildV { channels: g.channels.remove(ci), ..g },
            Result::Ok(()),
        ),
    }
}

/// Row append: one new message per row, in the given order, with
/// platform-assigned identifiers; the table must exist.
pub open spec fn spec_append_data(g: GuildV, table: Seq<u8>, rows: Seq<RowV>) -> (GuildV, Result<
    (),
    StorageError,
>) {
    match find_chan(g.channels, lower(table)) {
        Option::None => (g, Result::Err(StorageError::NotFound)),
        Option::Some(ci) => {
            let ch = g.channels[ci];
            (
                GuildV {
                    channels: g.channels.update(
                        ci,
                        ChannelV { messages: ch.messages + rows_msgs(rows, g.next_id), ..ch },
                    ),
                    next_id: (g.next_id + rows.len()) as u64,
                },
                Result::Ok(()),
            )
        },
    }
}

/// One upsert pass over the keyed rows, in order: an existing message
/// is edited in place, a missing one is posted fresh (its new
/// identifier replaces the requested key), and the first unparsable
/// key aborts the rest, leaving earlier effects in place.
pub open spec fn spec_insert_pairs(g: GuildV, ci: int, entries: Seq<KeyedRowV>) -> (GuildV, Result<
    (),
    StorageError,
>)
    decreases entries.len(),
{
    if entries.len() == 0 {
        (g, Result::Ok(()))
    } else {
        let e = entries[0];
        match parse_key_spec(e.key) {
            Option::None => (g, Result::Err(StorageError::InvalidKey)),
            Option::Some(id) => {
                let ch = g.channels[ci];
                let content = fence_wrap(ser_row(e.row));
                let g1 = match find_msg(ch.messages, id) {
                    Option::Some(mi) => GuildV {
                        channels: g.channels.update(
                            ci,
                            ChannelV {
                                messages: ch.messages.update(
                                    mi,
                                    MessageV { content, ..ch.messages[mi] },
                                ),
                                ..ch
                            },
                        ),
                        ..g
                    },
                    Option::None => GuildV {
                        channels: g.channels.update(
                            ci,
                            ChannelV {
                                messages: ch.messages.push(
                                    MessageV { id: g.next_id, content, pinned: false, regular: true },
                                ),
                                ..ch
                            },
                        ),
                        next_id: (g.next_id + 1) as u64,
                    },
                };
                spec_insert_pairs(g1, ci, entries.skip(1))
            },
        }
    }
}

/// Upsert: resolves the table, then applies [`spec_insert_pairs`].
pub open spec fn spec_insert_data(g: GuildV, table: Seq<u8>, entries: Seq<KeyedRowV>) -> (
    GuildV,
    Result<(), StorageError>,
) {
    match find_chan(g.channels, lower(table)) {
        Option::None => (g, Result::Err(StorageError::NotFound)),
        Option::Some(ci) => spec_insert_pairs(g, ci, entries),
    }
}

/// One deletion pass over the keys, in order: each key must be numeric
/// and name an existing message (the remote reports deleting a missing
/// message as a failure); the first failure aborts the rest, leaving
/// earlier deletions in place.
pub open spec fn spec_delete_keys(g: GuildV, ci: int, keys: Seq<Seq<u8>>) -> (GuildV, Result<
    (),
    StorageError,
>)
    decreases keys.len(),
{
    if keys.len() == 0 {
        (g, Result::Ok(()))
    } else {
        match parse_key_spec(keys[0]) {
            Option::None => (g, Result::Err(StorageError::InvalidKey)),
            Option::Some(id) => {
                let ch = g.channels[ci];
                match find_msg(ch.messages, id) {
                    Option::None => (g, Result::Err(StorageError::NotFound)),
                    Option::Some(mi) => {
                        let g1 = GuildV {
                            channels: g.channels.update(
                                ci,
                                ChannelV { messages: ch.messages.remove(mi), ..ch },
                            ),
                            ..g
                        };
                        spec_delete_keys(g1, ci, keys.skip(1))
                    },
                }
            },
        }
    }
}

/// Row deletion: resolves the table, then applies
/// [`spec_delete_keys`].
pub open spec fn spec_delete_data(g: GuildV, table: Seq<u8>, keys: Seq<Seq<u8>>) -> (GuildV, Result<
    (),
    StorageError,
>) {
    match find_chan(g.channels, lower(table)) {
        Option::None => (g, Result::Err(StorageError::NotFound)),
        Option::Some(ci) => spec_delete_keys(g, ci, keys),
    }
}

impl Channel {
    /// Reads the schema this channel holds: the decoded first pin, or
    /// a column-less schema named after the channel when no message is
    /// pinned.
    pub fn get_schema(&self) -> (r: Result<Schema, StorageError>)
        ensures
            r is Ok ==> spec_get_schema(self@) == Result::<SchemaV, StorageError>::Ok(r->Ok_0@),
            r is Err ==> spec_get_schema(self@) == Result::<SchemaV, StorageError>::Err(r->Err_0),
    {
        let ghost mv = msg_views(self.messages@);
        let mut i: usize = 0;
        while i < self.messages.len()
            invariant
                0 <= i <= self.messages@.len(),
                mv == msg_views(self.messages@),
                forall|j: int| 0 <= j < i ==> !(#[trigger] mv[j]).pinned,
            decreases self.messages@.len() - i,
        {
            if self.messages[i].pinned {
                proof {
                    assert(mv[i as int] == self.messages@[i as int]@);
                    lemma_pinned_of_first(self@.messages, i as int);
                }
                return match Schema::from_codeblock(self.messages[i].content.as_slice()) {
                    Result::Ok(v) => Result::Ok(v),
                    Result::Err(e) => Result::Err(e),
                };
            }
            proof {
                assert(mv[i as int] == self.messages@[i as int]@);
            }
            i += 1;
        }
        proof {
            lemma_pinned_of_none(self@.messages);
        }
        Result::Ok(Schema::schemaless(self.name.as_slice()))
    }
}

impl Schema {
    /// The stub schema of a schemaless table: the given name and
    /// nothing else.
    pub fn schemaless(name: &[u8]) -> (r: Schema)
        ensures
            r@ == schemaless_of(name@),
    {
        Schema {
            table_name: vstd::slice::slice_to_vec(name),
            column_defs: Option::None,
            indexes: Option::None,
            engine: Option::None,
            foreign_keys: Option::None,
            comment: Option::None,
        }
    }
}

/// The verified storage adapter: the engine-facing operation set,
/// resolving tables by normalized name against the modeled namespace
/// and mapping rows one-to-one to messages.
#[derive(Debug)]
pub struct Storage {
    pub guild: Guild,
}

impl View for Storage {
    type V = GuildV;

    open spec fn view(&self) -> GuildV {
        self.guild@
    }
}

impl Storage {
    /// Wraps a namespace handle as a storage adapter.
    pub fn new(guild: Guild) -> (s: Self)
        ensures
            s@ == guild@,
    {
        Storage { guild }
    }

    /// Fetches the schema of `table`, or `None` for an unknown table.
    pub fn fetch_schema(&self, table: &[u8]) -> (r: Result<Option<Schema>, StorageError>)
        ensures
            match r {
                Result::Ok(opt) => match opt {
                    Option::Some(v) => spec_fetch_schema(self@, table@) == Result::<
                        Option<SchemaV>,
                        StorageError,
                    >::Ok(Option::Some(v@)),
                    Option::None => spec_fetch_schema(self@, table@) == Result::<
                        Option<SchemaV>,
                        StorageError,
                    >::Ok(Option::<SchemaV>::None),
                },
                Result::Err(e) => spec_fetch_schema(self@, table@) == Result::<
                    Option<SchemaV>,
                    StorageError,
                >::Err(e),
            },
    {
        let lname = normalize_name(table);
        match self.guild.find_channel(lname.as_slice()) {
            Option::None => Result::Ok(Option::None),
            Option::Some(ci) => {
                proof {
                    lemma_find_chan(self@.channels, lower(table@));
                }
                match self.guild.channels[ci].get_schema() {
                    Result::Ok(v) => {
                        proof {
                            assert(self@.channels[ci as int] == self.guild.channels@[ci as int]@);
                        }
                        Result::Ok(Option::Some(v))
                    },
                    Result::Err(e) => {
                        proof {
                            assert(self@.channels[ci as int] == self.guild.channels@[ci as int]@);
                        }
                        Result::Err(e)
                    },
                }
            },
        }
    }

    /// Fetches the schema of every channel, in namespace order.
    pub fn fetch_all_schemas(&self) -> (r: Result<Vec<Schema>, StorageError>)
        ensures
            match r {
                Result::Ok(v) => spec_all_schemas(self@.channels) == Result::<
                    Seq<SchemaV>,
                    StorageError,
                >::Ok(schema_views(v@)),
                Result::Err(e) => spec_all_schemas(self@.channels) == Result::<
                    Seq<SchemaV>,
                    StorageError,
                >::Err(e),
            },
    {
        let ghost cv = self@.channels;
        let mut acc: Vec<Schema> = Vec::new();
        let mut i: usize = 0;
        proof {
            assert(cv.skip(0) =~= cv);
            assert(schema_views(acc@) =~= Seq::<SchemaV>::empty());
            if spec_all_schemas(cv) is Ok {
                assert(schema_views(acc@) + spec_all_schemas(cv)->Ok_0 =~= spec_all_schemas(
                    cv,
                )->Ok_0);
            }
        }
        while i < self.guild.channels.len()
            invariant
                0 <= i <= self.guild.channels@.len(),
                cv == chan_views(self.guild.channels@),
                spec_all_schemas(cv) == match spec_all_schemas(cv.skip(i as int)) {
                    Result::Ok(rest) => Result::<Seq<SchemaV>, StorageError>::Ok(
                        schema_views(acc@) + rest,
                    ),
                    Result::Err(e) => Result::<Seq<SchemaV>, StorageError>::Err(e),
                },
            decreases self.guild.channels@.len() - i,
        {
            let ghost tail = cv.skip(i as int);
            proof {
                assert(tail[0] == cv[i as int]);
                assert(tail.skip(1) =~= cv.skip(i as int + 1));
                assert(cv[i as int] == self.guild.channels@[i as int]@);
            }
            match self.guild.channels[i].get_schema() {
                Result::Err(e) => {
                    return Result::Err(e);
                },
                Result::Ok(v) => {
                    proof {
                        if spec_all_schemas(cv.skip(i as int + 1)) is Ok {
                            let rest2 = spec_all_schemas(cv.skip(i as int + 1))->Ok_0;
                            assert(schema_views(acc@) + (seq![v@] + rest2) =~= schema_views(
                                acc@.push(v),
                            ) + rest2) by {
                                assert(schema_views(acc@.push(v)) =~= schema_views(acc@) + seq![
                                    v@,
                                ]);
                            }
                        }
                    }
                    acc.push(v);
                    i += 1;
                },
            }
        }
        proof {
            assert(cv.skip(i as int) =~= Seq::<ChannelV>::empty());
            assert(schema_views(acc@) + Seq::<SchemaV>::empty() =~= schema_views(acc@));
        }
        Result::Ok(acc)
    }

    /// Fetches the row stored under `key` in `table`; an unknown table
    /// or absent row is `None`, a non-numeric key an error.
    pub fn fetch_data(&self, table: &[u8], key: &[u8]) -> (r: Result<Option<Row>, StorageError>)
        ensures
            match r {
                Result::Ok(opt) => match opt {
                    Option::Some(row) => spec_fetch_data(self@, table@, key@) == Result::<
                        Option<RowV>,
                        StorageError,
                    >::Ok(Option::Some(row@)),
                    Option::None => spec_fetch_data(self@, table@, key@) == Result::<
                        Option<RowV>,
                        StorageError,
                    >::Ok(Option::<RowV>::None),
                },
                Result::Err(e) => spec_fetch_data(self@, table@, key@) == Result::<
                    Option<RowV>,
                    StorageError,
                >::Err(e),
            },
    {
        let id = match parse_key(key) {
            Option::None => {
                return Result::Err(StorageError::InvalidKey);
            },
            Option::Some(id) => id,
        };
        let lname = normalize_name(table);
        let ci = match self.guild.find_channel(lname.as_slice()) {
            Option::None => {
                return Result::Ok(Option::None);
            },
            Option::Some(ci) => ci,
        };
        proof {
            lemma_find_chan(self@.channels, lower(table@));
            assert(self@.channels[ci as int] == self.guild.channels@[ci as int]@);
        }
        let ch = &self.guild.channels[ci];
        let mi = match ch.find_message(id) {
            Option::None => {
                return Result::Ok(Option::None);
            },
            Option::Some(mi) => mi,
        };
        proof {
            lemma_find_msg(ch@.messages, id);
            assert(ch@.messages[mi as int] == ch.messages@[mi as int]@);
        }
        let row = row_from_content(ch.messages[mi].content.as_slice());
        Result::Ok(Option::Some(row))
    }

    /// Scans `table`: every stored row with its key, oldest first; an
    /// unknown table scans as empty.
    pub fn scan_data(&self, table: &[u8]) -> (r: Result<Vec<KeyedRow>, StorageError>)
        ensures
            match r {
                Result::Ok(v) => spec_scan_data(self@, table@) == Result::<
                    Seq<KeyedRowV>,
                    StorageError,
                >::Ok(keyed_views(v@)),
                Result::Err(e) => spec_scan_data(self@, table@) == Result::<
                    Seq<KeyedRowV>,
                    StorageError,
                >::Err(e),
            },
    {
        let lname = normalize_name(table);
        let ci = match self.guild.find_channel(lname.as_slice()) {
            Option::None => {
                let none_found: Vec<KeyedRow> = Vec::new();
                proof {
                    assert(keyed_views(none_found@) =~= Seq::<KeyedRowV>::empty());
                }
                return Result::Ok(none_found);
            },
            Option::Some(ci) => ci,
        };
        proof {
            lemma_find_chan(self@.channels, lower(table@));
            assert(self@.channels[ci as int] == self.guild.channels@[ci as int]@);
        }
        let ch = &self.guild.channels[ci];
        let ghost mv = ch@.messages;
        let mut acc: Vec<KeyedRow> = Vec::new();
        let mut i: usize = 0;
        proof {
            assert(mv.skip(0) =~= mv);
            assert(keyed_views(acc@) + scan_of(mv) =~= scan_of(mv));
        }
        while i < ch.messages.len()
            invariant
                0 <= i <= ch.messages@.len(),
                mv == msg_views(ch.messages@),
                scan_of(mv) == keyed_views(acc@) + scan_of(mv.skip(i as int)),
            decreases ch.messages@.len() - i,
        {
            let ghost tail = mv.skip(i as int);
            proof {
                assert(tail[0] == mv[i as int]);
                assert(tail.skip(1) =~= mv.skip(i as int + 1));
                assert(mv[i as int] == ch.messages@[i as int]@);
            }
            let m = &ch.messages[i];
            if m.regular && !m.pinned {
                let key = render_key(m.id);
                let row = row_from_content(m.content.as_slice());
                let kr = KeyedRow { key, row };
                proof {
                    assert(kr@ == keyed_of(mv[i as int]));
                    assert(keyed_views(acc@) + (seq![kr@] + scan_of(mv.skip(i as int + 1)))
                        =~= keyed_views(acc@.push(kr)) + scan_of(mv.skip(i as int + 1))) by {
                        assert(keyed_views(acc@.push(kr)) =~= keyed_views(acc@) + seq![kr@]);
                    }
                }
                acc.push(kr);
            }
            i += 1;
        }
        proof {
            assert(mv.skip(i as int) =~= Seq::<MessageV>::empty());
            assert(keyed_views(acc@) + Seq::<KeyedRowV>::empty() =~= keyed_views(acc@));
        }
        Result::Ok(acc)
    }
}

/// Reads a row from stored content: the decoding, or the one-field
/// raw-content fallback.
pub fn row_from_content(content: &[u8]) -> (row: Row)
    ensures
        row@ == row_of_content(content@),
{
    match Row::from_codeblock(content) {
        Result::Ok(row) => row,
        Result::Err(_) => {
            let fname: Vec<u8> = vec![0x63, 0x6F, 0x6E, 0x74, 0x65, 0x6E, 0x74];
            proof {
                assert(fname@ =~= content_field());
            }
            let raw = vstd::slice::slice_to_vec(content);
            let f = Field { name: fname, value: crate::value::Value::Str(raw) };
            let fields: Vec<Field> = vec![f];
            proof {
                assert(crate::value::field_views(fields@) =~= seq![
                    FieldV { name: content_field(), value: ValueV::Str(content@) },
                ]);
            }
            Row::Fields(fields)
        },
    }
}

impl Channel {
    /// Whether any message of this channel is pinned.
    pub fn has_pin(&self) -> (r: bool)
        ensures
            r == (self@.pins().len() > 0),
    {
        let ghost mv = msg_views(self.messages@);
        let mut i: usize = 0;
        while i < self.messages.len()
            invariant
                0 <= i <= self.messages@.len(),
                mv == msg_views(self.messages@),
                forall|j: int| 0 <= j < i ==> !(#[trigger] mv[j]).pinned,
            decreases self.messages@.len() - i,
        {
            if self.messages[i].pinned {
                proof {
                    assert(mv[i as int] == self.messages@[i as int]@);
                    lemma_pinned_of_first(self@.messages, i as int);
                }
                return true;
            }
            proof {
                assert(mv[i as int] == self.messages@[i as int]@);
            }
            i += 1;
        }
        proof {
            lemma_pinned_of_none(self@.messages);
        }
        false
    }
}

impl Storage {
    /// Inserts a schema: rejects a primary key outright, creates the
    /// channel on demand, refuses a table whose channel already has a
    /// pin, and otherwise posts and pins the rendered schema.
    pub fn insert_schema(&mut self, schema: &Schema) -> (r: Result<(), StorageError>)
        requires
            old(self)@.next_id + 2 <= u64::MAX,
        ensures
            ({
                let (g2, rr) = spec_insert_schema(old(self)@, schema@);
                final(self)@ == g2 && r == rr
            }),
    {
        if schema.declares_primary_key() {
            return Result::Err(StorageError::PrimaryKey);
        }
        let lname = normalize_name(schema.table_name.as_slice());
        let ci: usize = match self.guild.find_channel(lname.as_slice()) {
            Option::Some(ci) => {
                proof {
                    lemma_find_chan(self@.channels, lower(schema@.table_name));
                }
                ci
            },
            Option::None => {
                let cid = self.guild.next_id;
                let nch = Channel { id: cid, name: lname, messages: Vec::new() };
                proof {
                    lemma_chan_views_push(self.guild.channels@, nch);
                    assert(nch@ == ChannelV {
                        id: cid,
                        name: lower(schema@.table_name),
                        messages: msg_views(Seq::<Message>::empty()),
                    });
                    assert(msg_views(Seq::<Message>::empty()) =~= Seq::<MessageV>::empty());
                }
                let n = self.guild.channels.len();
                self.guild.channels.push(nch);
                self.guild.next_id = cid + 1;
                n
            },
        };
        let ghost sp = spec_insert_schema(old(self)@, schema@);
        let ghost g1 = self@;
        proof {
            assert(ci < g1.channels.len());
        }
        let has = self.guild.channels[ci].has_pin();
        proof {
            assert(self.guild.channels@[ci as int]@ == g1.channels[ci as int]);
        }
        if has {
            proof {
                assert(self@ =~~= sp.0);
            }
            return Result::Err(StorageError::AlreadyPinned);
        }
        let content = schema.to_codeblock();
        let mid = self.guild.next_id;
        let msg = Message { id: mid, content, pinned: true, regular: true };
        let ghost chans1 = self.guild.channels@;
        let ghost old_ch = chans1[ci as int];
        proof {
            lemma_msg_views_push(old_ch.messages@, msg);
        }
        let ch = &mut self.guild.channels[ci];
        ch.messages.push(msg);
        proof {
            lemma_chan_views_update(chans1, ci as int, *ch);
        }
        self.guild.next_id = mid + 1;
        proof {
            assert(self@ =~~= sp.0);
        }
        Result::Ok(())
    }

    /// Deletes the schema of `table` by deleting its channel outright,
    /// rows and all; an unknown table is an error.
    pub fn delete_schema(&mut self, table: &[u8]) -> (r: Result<(), StorageError>)
        ensures
            ({
                let (g2, rr) = spec_delete_schema(old(self)@, table@);
                final(self)@ == g2 && r == rr
            }),
    {
        let lname = normalize_name(table);
        let ci = match self.guild.find_channel(lname.as_slice()) {
            Option::None => {
                return Result::Err(StorageError::NotFound);
            },
            Option::Some(ci) => ci,
        };
        proof {
            lemma_find_chan(self@.channels, lower(table@));
            lemma_chan_views_remove(self.guild.channels@, ci as int);
        }
        self.guild.channels.remove(ci);
        Result::Ok(())
    }

    /// Appends rows to `table`: one new message per row, in order,
    /// with identifiers the platform assigns at posting time.
    pub fn append_data(&mut self, table: &[u8], rows: &Vec<Row>) -> (r: Result<
        (),
        StorageError,
    >)
        requires
            old(self)@.next_id + rows@.len() <= u64::MAX,
        ensures
            ({
                let (g2, rr) = spec_append_data(old(self)@, table@, row_views(rows@));
                final(self)@ == g2 && r == rr
            }),
    {
        let lname = normalize_name(table);
        let ci = match self.guild.find_channel(lname.as_slice()) {
            Option::None => {
                return Result::Err(StorageError::NotFound);
            },
            Option::Some(ci) => ci,
        };
        proof {
            lemma_find_chan(self@.channels, lower(table@));
        }
        let ghost rv = row_views(rows@);
        let ghost g0 = old(self)@;
        let ghost och = g0.channels[ci as int];
        let mut k: usize = 0;
        proof {
            let ch0 = ChannelV {
                messages: och.messages + rows_msgs(rv.take(0), g0.next_id),
                ..och
            };
            assert(rows_msgs(rv.take(0), g0.next_id) =~= Seq::<MessageV>::empty());
            assert(ch0.messages =~= och.messages);
            assert(ch0 =~~= och);
            assert(g0.channels.update(ci as int, ch0) =~~= g0.channels);
            assert(self@ =~~= (GuildV {
                channels: g0.channels.update(ci as int, ch0),
                next_id: (g0.next_id + 0) as u64,
            }));
        }
        while k < rows.len()
            invariant
                0 <= k <= rows@.len(),
                rv == row_views(rows@),
                g0 == old(self)@,
                och == g0.channels[ci as int],
                0 <= ci < g0.channels.len(),
                g0.next_id + rv.len() <= u64::MAX,
                self@ == (GuildV {
                    channels: g0.channels.update(
                        ci as int,
                        ChannelV {
                            messages: och.messages + rows_msgs(rv.take(k as int), g0.next_id),
                            ..och
                        },
                    ),
                    next_id: (g0.next_id + k) as u64,
                }),
            decreases rows@.len() - k,
        {
            proof {
                assert(self.guild.channels@.len() == self@.channels.len());
            }
            let content = rows[k].to_codeblock();
            let mid = self.guild.next_id;
            let msg = Message { id: mid, content, pinned: false, regular: true };
            let ghost chans1 = self.guild.channels@;
            let ghost cur_ch = chans1[ci as int];
            proof {
                lemma_msg_views_push(cur_ch.messages@, msg);
            }
            let ch = &mut self.guild.channels[ci];
            ch.messages.push(msg);
            proof {
                lemma_chan_views_update(chans1, ci as int, *ch);
            }
            self.guild.next_id = mid + 1;
            proof {
                assert(msg@ == msg_of_row(rv[k as int], (g0.next_id + k) as u64)) by {
                    assert(rv[k as int] == rows@[k as int]@);
                }
                assert(rows_msgs(rv.take(k as int + 1), g0.next_id) =~= rows_msgs(
                    rv.take(k as int),
                    g0.next_id,
                ).push(msg@));
                assert(cur_ch@ == chan_views(chans1)[ci as int]);
                assert(cur_ch@.messages == och.messages + rows_msgs(rv.take(k as int), g0.next_id));
                assert(ch@.messages == cur_ch@.messages.push(msg@));
                assert((och.messages + rows_msgs(rv.take(k as int), g0.next_id)).push(msg@)
                    =~= och.messages + rows_msgs(rv.take(k as int + 1), g0.next_id));
                assert(ch@.messages == och.messages + rows_msgs(rv.take(k as int + 1), g0.next_id));
                assert(ch@ =~~= (ChannelV {
                    messages: och.messages + rows_msgs(rv.take(k as int + 1), g0.next_id),
                    ..och
                }));
                assert(chan_views(chans1).update(ci as int, ch@) =~~= g0.channels.update(
                    ci as int,
                    ChannelV {
                        messages: och.messages + rows_msgs(rv.take(k as int + 1), g0.next_id),
                        ..och
                    },
                ));
                assert(self@ =~~= (GuildV {
                    channels: g0.channels.update(
                        ci as int,
                        ChannelV {
                            messages: och.messages + rows_msgs(rv.take(k as int + 1), g0.next_id),
                            ..och
                        },
                    ),
                    next_id: (g0.next_id + k + 1) as u64,
                }));
            }
            k += 1;
        }
        proof {
            assert(rv.take(k as int) =~= rv);
        }
        Result::Ok(())
    }
}

impl Storage {
    /// Upserts keyed rows into `table`, in order: an existing message
    /// is edited in place (key unchanged), a missing one is posted as
    /// a fresh message whose new identifier replaces the requested
    /// key; the first non-numeric key aborts the rest.
    pub fn insert_data(&mut self, table: &[u8], entries: &Vec<KeyedRow>) -> (r: Result<
        (),
        StorageError,
    >)
        requires
            old(self)@.next_id + entries@.len() <= u64::MAX,
        ensures
            ({
                let (g2, rr) = spec_insert_data(old(self)@, table@, keyed_views(entries@));
                final(self)@ == g2 && r == rr
            }),
    {
        let lname = normalize_name(table);
        let ci = match self.guild.find_channel(lname.as_slice()) {
            Option::None => {
                return Result::Err(StorageError::NotFound);
            },
            Option::Some(ci) => ci,
        };
        proof {
            lemma_find_chan(self@.channels, lower(table@));
        }
        let ghost ev = keyed_views(entries@);
        let ghost tgt = spec_insert_pairs(old(self)@, ci as int, ev);
        let mut k: usize = 0;
        proof {
            assert(ev.skip(0) =~= ev);
        }
        while k < entries.len()
            invariant
                0 <= k <= entries@.len(),
                ev == keyed_views(entries@),
                0 <= ci < self@.channels.len(),
                spec_insert_data(old(self)@, table@, ev) == tgt,
                tgt == spec_insert_pairs(self@, ci as int, ev.skip(k as int)),
                self@.next_id + (ev.len() - k) <= u64::MAX,
            decreases entries@.len() - k,
        {
            let ghost tail = ev.skip(k as int);
            let ghost gpre = self@;
            proof {
                assert(tail[0] == ev[k as int]);
                assert(ev[k as int] == entries@[k as int]@);
                assert(tail.skip(1) =~= ev.skip(k as int + 1));
            }
            let e = &entries[k];
            let id = match parse_key(e.key.as_slice()) {
                Option::None => {
                    return Result::Err(StorageError::InvalidKey);
                },
                Option::Some(id) => id,
            };
            let content = e.row.to_codeblock();
            let ghost chans1 = self.guild.channels@;
            proof {
                assert(chans1[ci as int]@ == gpre.channels[ci as int]);
            }
            match self.guild.channels[ci].find_message(id) {
                Option::Some(mi) => {
                    proof {
                        lemma_find_msg(gpre.channels[ci as int].messages, id);
                        assert(chans1[ci as int].messages@[mi as int]@
                            == gpre.channels[ci as int].messages[mi as int]);
                    }
                    let ch = &mut self.guild.channels[ci];
                    let m = &mut ch.messages[mi];
                    m.content = content;
                    proof {
                        lemma_msg_views_update(chans1[ci as int].messages@, mi as int, *m);
                    }
                    proof {
                        lemma_chan_views_update(chans1, ci as int, *ch);
                        let och = gpre.channels[ci as int];
                        let g1 = GuildV {
                            channels: gpre.channels.update(
                                ci as int,
                                ChannelV {
                                    messages: och.messages.update(
                                        mi as int,
                                        MessageV {
                                            content: fence_wrap(ser_row(ev[k as int].row)),
                                            ..och.messages[mi as int]
                                        },
                                    ),
                                    ..och
                                },
                            ),
                            ..gpre
                        };
                        assert(self@ =~~= g1);
                        assert(spec_insert_pairs(gpre, ci as int, tail) == spec_insert_pairs(
                            g1,
                            ci as int,
                            tail.skip(1),
                        ));
                    }
                },
                Option::None => {
                    let mid = self.guild.next_id;
                    let msg = Message { id: mid, content, pinned: false, regular: true };
                    let ghost cur_ch = chans1[ci as int];
                    proof {
                        lemma_msg_views_push(cur_ch.messages@, msg);
                    }
                    let ch = &mut self.guild.channels[ci];
                    ch.messages.push(msg);
                    proof {
                        lemma_chan_views_update(chans1, ci as int, *ch);
                    }
                    self.guild.next_id = mid + 1;
                    proof {
                        let och = gpre.channels[ci as int];
                        let g1 = GuildV {
                            channels: gpre.channels.update(
                                ci as int,
                                ChannelV {
                                    messages: och.messages.push(
                                        MessageV {
                                            id: gpre.next_id,
                                            content: fence_wrap(ser_row(ev[k as int].row)),
                                            pinned: false,
                                            regular: true,
                                        },
                                    ),
                                    ..och
                                },
                            ),
                            next_id: (gpre.next_id + 1) as u64,
                        };
                        assert(self@ =~~= g1);
                        assert(spec_insert_pairs(gpre, ci as int, tail) == spec_insert_pairs(
                            g1,
                            ci as int,
                            tail.skip(1),
                        ));
                    }
                },
            }
            k += 1;
        }
        proof {
            assert(ev.skip(k as int) =~= Seq::<KeyedRowV>::empty());
        }
        Result::Ok(())
    }

    /// Deletes the rows stored under `keys` in `table`, in order; a
    /// non-numeric key or a key without a message aborts the rest,
    /// leaving earlier deletions in place.
    pub fn delete_data(&mut self, table: &[u8], keys: &Vec<Vec<u8>>) -> (r: Result<
        (),
        StorageError,
    >)
        ensures
            ({
                let (g2, rr) = spec_delete_data(old(self)@, table@, key_views(keys@));
                final(self)@ == g2 && r == rr
            }),
    {
        let lname = normalize_name(table);
        let ci = match self.guild.find_channel(lname.as_slice()) {
            Option::None => {
                return Result::Err(StorageError::NotFound);
            },
            Option::Some(ci) => ci,
        };
        proof {
            lemma_find_chan(self@.channels, lower(table@));
        }
        let ghost kv = key_views(keys@);
        let ghost tgt = spec_delete_keys(old(self)@, ci as int, kv);
        let mut k: usize = 0;
        proof {
            assert(kv.skip(0) =~= kv);
        }
        while k < keys.len()
            invariant
                0 <= k <= keys@.len(),
                kv == key_views(keys@),
                0 <= ci < self@.channels.len(),
                spec_delete_data(old(self)@, table@, kv) == tgt,
                tgt == spec_delete_keys(self@, ci as int, kv.skip(k as int)),
            decreases keys@.len() - k,
        {
            let ghost tail = kv.skip(k as int);
            let ghost gpre = self@;
            proof {
                assert(tail[0] == kv[k as int]);
                assert(kv[k as int] == keys@[k as int]@);
                assert(tail.skip(1) =~= kv.skip(k as int + 1));
            }
            let id = match parse_key(keys[k].as_slice()) {
                Option::None => {
                    return Result::Err(StorageError::InvalidKey);
                },
                Option::Some(id) => id,
            };
            let ghost chans1 = self.guild.channels@;
            proof {
                assert(chans1[ci as int]@ == gpre.channels[ci as int]);
            }
            match self.guild.channels[ci].find_message(id) {
                Option::None => {
                    return Result::Err(StorageError::NotFound);
                },
                Option::Some(mi) => {
                    proof {
                        lemma_find_msg(gpre.channels[ci as int].messages, id);
                        lemma_msg_views_remove(chans1[ci as int].messages@, mi as int);
                    }
                    let ch = &mut self.guild.channels[ci];
                    ch.messages.remove(mi);
                    proof {
                        lemma_chan_views_update(chans1, ci as int, *ch);
                        let och = gpre.channels[ci as int];
                        let g1 = GuildV {
                            channels: gpre.channels.update(
                                ci as int,
                                ChannelV { messages: och.messages.remove(mi as int), ..och },
                            ),
                            ..gpre
                        };
                        assert(self@ =~~= g1);
                        assert(spec_delete_keys(gpre, ci as int, tail) == spec_delete_keys(
                            g1,
                            ci as int,
                            tail.skip(1),
                        ));
                    }
                },
            }
            k += 1;
        }
        proof {
            assert(kv.skip(k as int) =~= Seq::<Seq<u8>>::empty());
        }
        Result::Ok(())
    }
}

} // verus!
