//! The adapter's laws: properties that relate several operations,
//! stated over the spec-level operations of `store` and proved once
//! and for all. The codec's round-trip law stands in `roundtrip`.

use vstd::prelude::*;

use crate::codec::{fence_wrap, ser_row, ser_schema};
use crate::error::StorageError;
use crate::name::{lemma_lower_idempotent, lower};
use crate::numeral::{dec_digits, lemma_parse_key_of_dec_digits, parse_key_spec};
use crate::remote::{
    find_chan, find_msg, lemma_find_chan, lemma_find_chan_prefix, lemma_find_msg,
    lemma_find_msg_prefix, lemma_pinned_of_none, lemma_pinned_of_push, ChannelV, GuildV, MessageV,
};
use crate::roundtrip::{theorem_row_roundtrip, theorem_schema_roundtrip};
use crate::remote::{data_of, is_data_msg};
use crate::store::{
    keyed_of, msg_of_row, rows_msgs, scan_of, spec_append_data, spec_delete_data,
    spec_delete_keys, spec_delete_schema, spec_fetch_data, spec_fetch_schema, spec_get_schema, spec_insert_data,
    spec_insert_pairs, spec_insert_schema, spec_scan_data, KeyedRowV,
};
use crate::value::{RowV, SchemaV};

verus! {

/// A channel scan looks only at names: sequences with the same names
/// resolve alike.
proof fn lemma_find_chan_names(cs1: Seq<ChannelV>, cs2: Seq<ChannelV>, lname: Seq<u8>)
    requires
        cs1.len() == cs2.len(),
        forall|j: int| 0 <= j < cs1.len() ==> (#[trigger] cs1[j]).name == cs2[j].name,
    ensures
        find_chan(cs1, lname) == find_chan(cs2, lname),
    decreases cs1.len(),
{
    if cs1.len() > 0 {
        assert(forall|j: int|
            0 <= j < cs1.skip(1).len() ==> #[trigger] cs1.skip(1)[j] == cs1[j + 1]);
        assert(forall|j: int|
            0 <= j < cs2.skip(1).len() ==> #[trigger] cs2.skip(1)[j] == cs2[j + 1]);
        lemma_find_chan_names(cs1.skip(1), cs2.skip(1), lname);
    }
}

/// A message lookup looks only at identifiers: lists with the same
/// identifiers resolve alike.
proof fn lemma_find_msg_ids(ms1: Seq<MessageV>, ms2: Seq<MessageV>, id: u64)
    requires
        ms1.len() == ms2.len(),
        forall|j: int| 0 <= j < ms1.len() ==> (#[trigger] ms1[j]).id == ms2[j].id,
    ensures
        find_msg(ms1, id) == find_msg(ms2, id),
    decreases ms1.len(),
{
    if ms1.len() > 0 {
        assert(forall|j: int|
            0 <= j < ms1.skip(1).len() ==> #[trigger] ms1.skip(1)[j] == ms1[j + 1]);
        assert(forall|j: int|
            0 <= j < ms2.skip(1).len() ==> #[trigger] ms2.skip(1)[j] == ms2[j + 1]);
        lemma_find_msg_ids(ms1.skip(1), ms2.skip(1), id);
    }
}

/// A scan of two runs of messages is the two scans in sequence.
proof fn lemma_scan_of_concat(a: Seq<MessageV>, b: Seq<MessageV>)
    ensures
        scan_of(a + b) == scan_of(a) + scan_of(b),
    decreases a.len(),
{
    if a.len() == 0 {
        assert(a + b =~= b);
        assert(scan_of(a) + scan_of(b) =~= scan_of(b));
    } else {
        assert((a + b)[0] == a[0]);
        assert((a + b).skip(1) =~= a.skip(1) + b);
        lemma_scan_of_concat(a.skip(1), b);
        if is_data_msg(a[0]) {
            assert(seq![keyed_of(a[0])] + (scan_of(a.skip(1)) + scan_of(b)) =~= (seq![
                keyed_of(a[0]),
            ] + scan_of(a.skip(1))) + scan_of(b));
        }
    }
}

/// The keyed rows that an append of `rows` contributes to a scan:
/// each row under the identifier assigned to it, in order.
pub open spec fn appended_rows(rows: Seq<RowV>, next: u64) -> Seq<KeyedRowV> {
    Seq::new(
        rows.len(),
        |i: int| KeyedRowV { key: dec_digits(((next + i) as u64) as nat), row: rows[i] },
    )
}

/// Freshly posted row messages scan back to exactly the rows posted,
/// in posting order, under their assigned identifiers.
proof fn lemma_scan_of_rows_msgs(rows: Seq<RowV>, next: u64)
    requires
        next + rows.len() <= u64::MAX,
    ensures
        scan_of(rows_msgs(rows, next)) == appended_rows(rows, next),
    decreases rows.len(),
{
    let ms = rows_msgs(rows, next);
    if rows.len() == 0 {
        assert(ms.len() == 0);
        assert(scan_of(ms) =~= appended_rows(rows, next));
    } else {
        assert(ms[0] == msg_of_row(rows[0], next));
        assert(is_data_msg(ms[0]));
        assert(ms.skip(1) =~= rows_msgs(rows.skip(1), (next + 1) as u64)) by {
            assert(forall|j: int|
                0 <= j < ms.skip(1).len() ==> #[trigger] ms.skip(1)[j] == ms[j + 1]);
            assert(forall|j: int|
                0 <= j < rows.skip(1).len() ==> #[trigger] rows.skip(1)[j] == rows[j + 1]);
        }
        lemma_scan_of_rows_msgs(rows.skip(1), (next + 1) as u64);
        theorem_row_roundtrip(rows[0]);
        assert(keyed_of(ms[0]) == KeyedRowV { key: dec_digits(next as nat), row: rows[0] });
        assert(seq![keyed_of(ms[0])] + appended_rows(rows.skip(1), (next + 1) as u64)
            =~= appended_rows(rows, next)) by {
            assert(forall|j: int|
                0 <= j < rows.skip(1).len() ==> #[trigger] rows.skip(1)[j] == rows[j + 1]);
        }
    }
}

/// Case-insensitivity: two table names that fold to the same
/// normalized name denote the same table, for every operation that
/// resolves a name.
pub proof fn law_case_insensitive(g: GuildV, n1: Seq<u8>, n2: Seq<u8>)
    requires
        lower(n1) == lower(n2),
    ensures
        spec_fetch_schema(g, n1) == spec_fetch_schema(g, n2),
        forall|key: Seq<u8>| spec_fetch_data(g, n1, key) == spec_fetch_data(g, n2, key),
        spec_scan_data(g, n1) == spec_scan_data(g, n2),
{
}

/// Primary-key rejection: a schema that declares a primary key is
/// rejected before anything is created; the namespace is untouched.
pub proof fn law_primary_key_rejected(g: GuildV, sc: SchemaV)
    requires
        sc.has_primary_key(),
    ensures
        spec_insert_schema(g, sc) == (g, Result::<(), StorageError>::Err(StorageError::PrimaryKey)),
{
}

/// Write-once schema: once a schema is inserted, inserting any second
/// schema for the same table (under any casing) fails with the pin
/// conflict and changes nothing, and the first schema is still
/// fetched unchanged — under any casing of the name.
pub proof fn law_schema_write_once(g: GuildV, sc: SchemaV, sc2: SchemaV, n: Seq<u8>)
    requires
        !sc.has_primary_key(),
        !sc2.has_primary_key(),
        lower(sc2.table_name) == lower(sc.table_name),
        lower(n) == lower(sc.table_name),
        spec_insert_schema(g, sc).1 is Ok,
    ensures
        ({
            let g1 = spec_insert_schema(g, sc).0;
            &&& spec_insert_schema(g1, sc2) == (
                g1,
                Result::<(), StorageError>::Err(StorageError::AlreadyPinned),
            )
            &&& spec_fetch_schema(g1, n) == Result::<Option<SchemaV>, StorageError>::Ok(
                Option::Some(sc),
            )
        }),
{
    let lname = lower(sc.table_name);
    lemma_lower_idempotent(sc.table_name);
    let g1 = spec_insert_schema(g, sc).0;
    let m = MessageV {
        id: spec_insert_schema_g1(g, sc).next_id,
        content: fence_wrap(ser_schema(sc)),
        pinned: true,
        regular: true,
    };
    match find_chan(g.channels, lname) {
        Option::Some(ci) => {
            lemma_find_chan(g.channels, lname);
            let ch = g.channels[ci];
            let newch = ChannelV { messages: ch.messages.push(m), ..ch };
            assert(g1.channels == g.channels.update(ci, newch));
            lemma_find_chan_names(g.channels, g1.channels, lname);
            assert(find_chan(g1.channels, lname) == Option::Some(ci));
            lemma_pinned_of_push(ch.messages, m);
            assert(newch.pins() =~= seq![m]);
            theorem_schema_roundtrip(sc);
            assert(spec_get_schema(g1.channels[ci]) == Result::<SchemaV, StorageError>::Ok(sc));
        },
        Option::None => {
            lemma_find_chan(g.channels, lname);
            let ci = g.channels.len() as int;
            let ch0 = ChannelV { id: g.next_id, name: lname, messages: Seq::<MessageV>::empty() };
            lemma_pinned_of_none(ch0.messages);
            let newch = ChannelV { messages: ch0.messages.push(m), ..ch0 };
            assert(g1.channels == g.channels.push(ch0).update(ci, newch));
            assert(g1.channels[ci].name == lname);
            assert(forall|j: int|
                0 <= j < ci ==> (#[trigger] g1.channels[j]).name == g.channels[j].name);
            lemma_find_chan_prefix(g1.channels, lname, ci);
            lemma_pinned_of_push(ch0.messages, m);
            assert(newch.pins() =~= seq![m]);
            theorem_schema_roundtrip(sc);
            assert(spec_get_schema(g1.channels[ci]) == Result::<SchemaV, StorageError>::Ok(sc));
        },
    }
}

/// The namespace state in which the schema message is posted: after
/// the channel was created, if it had to be.
pub open spec fn spec_insert_schema_g1(g: GuildV, sc: SchemaV) -> GuildV {
    match find_chan(g.channels, lower(sc.table_name)) {
        Option::Some(_) => g,
        Option::None => GuildV {
            channels: g.channels.push(
                ChannelV {
                    id: g.next_id,
                    name: lower(sc.table_name),
                    messages: Seq::<MessageV>::empty(),
                },
            ),
            next_id: (g.next_id + 1) as u64,
        },
    }
}

/// Row identity: after an append, each row is fetchable under the
/// identifier the platform assigned to it — the caller never chose
/// that key.
pub proof fn law_append_then_fetch(g: GuildV, table: Seq<u8>, rows: Seq<RowV>, i: int)
    requires
        g.wf(),
        find_chan(g.channels, lower(table)) is Some,
        0 <= i < rows.len(),
        g.next_id + rows.len() <= u64::MAX,
    ensures
        spec_append_data(g, table, rows).1 is Ok,
        spec_fetch_data(
            spec_append_data(g, table, rows).0,
            table,
            dec_digits(((g.next_id + i) as u64) as nat),
        ) == Result::<Option<RowV>, StorageError>::Ok(Option::Some(rows[i])),
{
    let ci = find_chan(g.channels, lower(table))->Some_0;
    lemma_find_chan(g.channels, lower(table));
    let ch = g.channels[ci];
    let id: u64 = (g.next_id + i) as u64;
    lemma_parse_key_of_dec_digits(id);
    let g1 = spec_append_data(g, table, rows).0;
    lemma_find_chan_names(g.channels, g1.channels, lower(table));
    let msgs = g1.channels[ci].messages;
    assert(msgs == ch.messages + rows_msgs(rows, g.next_id));
    let pos = ch.messages.len() + i;
    assert(msgs[pos] == msg_of_row(rows[i], id));
    assert forall|j: int| 0 <= j < pos implies (#[trigger] msgs[j]).id != id by {
        if j < ch.messages.len() {
            assert(msgs[j] == ch.messages[j]);
            assert(ch.messages[j].id < g.next_id);
        } else {
            assert(msgs[j] == msg_of_row(rows[j - ch.messages.len()], (g.next_id + j
                - ch.messages.len()) as u64));
        }
    }
    lemma_find_msg_prefix(msgs, id, pos);
    theorem_row_roundtrip(rows[i]);
}

/// Scan ordering: appending A, B, C extends the scan with A, B, C in
/// that order, oldest first, after whatever was already there.
pub proof fn law_append_then_scan(g: GuildV, table: Seq<u8>, rows: Seq<RowV>)
    requires
        g.wf(),
        find_chan(g.channels, lower(table)) is Some,
        g.next_id + rows.len() <= u64::MAX,
    ensures
        spec_scan_data(g, table) is Ok,
        spec_append_data(g, table, rows).1 is Ok,
        spec_scan_data(spec_append_data(g, table, rows).0, table) == Result::<
            Seq<KeyedRowV>,
            StorageError,
        >::Ok(spec_scan_data(g, table)->Ok_0 + appended_rows(rows, g.next_id)),
{
    let ci = find_chan(g.channels, lower(table))->Some_0;
    lemma_find_chan(g.channels, lower(table));
    let ch = g.channels[ci];
    let g1 = spec_append_data(g, table, rows).0;
    lemma_find_chan_names(g.channels, g1.channels, lower(table));
    assert(g1.channels[ci].messages == ch.messages + rows_msgs(rows, g.next_id));
    lemma_scan_of_concat(ch.messages, rows_msgs(rows, g.next_id));
    lemma_scan_of_rows_msgs(rows, g.next_id);
}

/// Upsert in place: inserting under a key whose message exists edits
/// that message — same identifier, same message count, no new
/// identifier spent — and the new row is fetched back under the same
/// key.
pub proof fn law_insert_data_edits(g: GuildV, table: Seq<u8>, e: KeyedRowV)
    requires
        g.wf(),
        find_chan(g.channels, lower(table)) is Some,
        parse_key_spec(e.key) is Some,
        find_msg(
            g.channels[find_chan(g.channels, lower(table))->Some_0].messages,
            parse_key_spec(e.key)->Some_0,
        ) is Some,
    ensures
        spec_insert_data(g, table, seq![e]).1 is Ok,
        spec_insert_data(g, table, seq![e]).0.next_id == g.next_id,
        ({
            let ci = find_chan(g.channels, lower(table))->Some_0;
            spec_insert_data(g, table, seq![e]).0.channels[ci].messages.len() == g.channels[
                ci
            ].messages.len()
        }),
        spec_fetch_data(spec_insert_data(g, table, seq![e]).0, table, e.key) == Result::<
            Option<RowV>,
            StorageError,
        >::Ok(Option::Some(e.row)),
{
    reveal_with_fuel(spec_insert_pairs, 2);
    let ci = find_chan(g.channels, lower(table))->Some_0;
    lemma_find_chan(g.channels, lower(table));
    let id = parse_key_spec(e.key)->Some_0;
    let ch = g.channels[ci];
    let mi = find_msg(ch.messages, id)->Some_0;
    lemma_find_msg(ch.messages, id);
    assert(seq![e][0] == e);
    assert(seq![e].skip(1) =~= Seq::<KeyedRowV>::empty());
    let g1 = spec_insert_data(g, table, seq![e]).0;
    let newmsgs = ch.messages.update(mi, MessageV { content: fence_wrap(ser_row(e.row)), ..ch.messages[mi] });
    assert(g1.channels == g.channels.update(ci, ChannelV { messages: newmsgs, ..ch }));
    lemma_find_chan_names(g.channels, g1.channels, lower(table));
    assert(forall|j: int| 0 <= j < newmsgs.len() ==> (#[trigger] newmsgs[j]).id == ch.messages[j].id);
    lemma_find_msg_ids(ch.messages, newmsgs, id);
    assert(newmsgs[mi].content == fence_wrap(ser_row(e.row)));
    theorem_row_roundtrip(e.row);
}

/// Upsert miss: inserting under a key whose message does not exist
/// creates a fresh message whose platform-assigned identifier differs
/// from the requested key; the requested key still fetches nothing,
/// and the row is fetched under the new identifier.
///
/// The one excluded input: a requested key that happens to equal the
/// identifier the platform is about to assign.
pub proof fn law_insert_data_creates(g: GuildV, table: Seq<u8>, e: KeyedRowV)
    requires
        g.wf(),
        g.next_id < u64::MAX,
        find_chan(g.channels, lower(table)) is Some,
        parse_key_spec(e.key) is Some,
        parse_key_spec(e.key)->Some_0 != g.next_id,
        find_msg(
            g.channels[find_chan(g.channels, lower(table))->Some_0].messages,
            parse_key_spec(e.key)->Some_0,
        ) is None,
    ensures
        spec_insert_data(g, table, seq![e]).1 is Ok,
        spec_fetch_data(spec_insert_data(g, table, seq![e]).0, table, e.key) == Result::<
            Option<RowV>,
            StorageError,
        >::Ok(Option::<RowV>::None),
        spec_fetch_data(
            spec_insert_data(g, table, seq![e]).0,
            table,
            dec_digits(g.next_id as nat),
        ) == Result::<Option<RowV>, StorageError>::Ok(Option::Some(e.row)),
{
    reveal_with_fuel(spec_insert_pairs, 2);
    let ci = find_chan(g.channels, lower(table))->Some_0;
    lemma_find_chan(g.channels, lower(table));
    let id = parse_key_spec(e.key)->Some_0;
    let ch = g.channels[ci];
    lemma_find_msg(ch.messages, id);
    assert(seq![e][0] == e);
    assert(seq![e].skip(1) =~= Seq::<KeyedRowV>::empty());
    let g1 = spec_insert_data(g, table, seq![e]).0;
    let nm = MessageV {
        id: g.next_id,
        content: fence_wrap(ser_row(e.row)),
        pinned: false,
        regular: true,
    };
    let newmsgs = ch.messages.push(nm);
    assert(g1.channels == g.channels.update(ci, ChannelV { messages: newmsgs, ..ch }));
    lemma_find_chan_names(g.channels, g1.channels, lower(table));
    lemma_parse_key_of_dec_digits(g.next_id);
    // the requested key still resolves to nothing
    lemma_find_msg(newmsgs, id);
    if find_msg(newmsgs, id) is Some {
        let j = find_msg(newmsgs, id)->Some_0;
        if j < ch.messages.len() {
            assert(ch.messages[j].id == id);
        }
        assert(false);
    }
    // the new identifier resolves to the new message
    assert forall|j: int| 0 <= j < ch.messages.len() implies (#[trigger] newmsgs[j]).id
        != g.next_id by {
        assert(newmsgs[j] == ch.messages[j]);
        assert(ch.messages[j].id < g.next_id);
    }
    assert(newmsgs[ch.messages.len() as int].id == g.next_id);
    lemma_find_msg_prefix(newmsgs, g.next_id, ch.messages.len() as int);
    theorem_row_roundtrip(e.row);
}

/// Delete-then-fetch: after deleting a key, fetching the same key
/// finds nothing.
pub proof fn law_delete_then_fetch(g: GuildV, table: Seq<u8>, key: Seq<u8>)
    requires
        g.wf(),
        find_chan(g.channels, lower(table)) is Some,
        parse_key_spec(key) is Some,
        find_msg(
            g.channels[find_chan(g.channels, lower(table))->Some_0].messages,
            parse_key_spec(key)->Some_0,
        ) is Some,
    ensures
        spec_delete_data(g, table, seq![key]).1 is Ok,
        spec_fetch_data(spec_delete_data(g, table, seq![key]).0, table, key) == Result::<
            Option<RowV>,
            StorageError,
        >::Ok(Option::<RowV>::None),
{
    reveal_with_fuel(spec_delete_keys, 2);
    let ci = find_chan(g.channels, lower(table))->Some_0;
    lemma_find_chan(g.channels, lower(table));
    let id = parse_key_spec(key)->Some_0;
    let ch = g.channels[ci];
    let mi = find_msg(ch.messages, id)->Some_0;
    lemma_find_msg(ch.messages, id);
    assert(seq![key][0] == key);
    assert(seq![key].skip(1) =~= Seq::<Seq<u8>>::empty());
    let g1 = spec_delete_data(g, table, seq![key]).0;
    let newmsgs = ch.messages.remove(mi);
    assert(g1.channels == g.channels.update(ci, ChannelV { messages: newmsgs, ..ch }));
    lemma_find_chan_names(g.channels, g1.channels, lower(table));
    lemma_find_msg(newmsgs, id);
    if find_msg(newmsgs, id) is Some {
        let j = find_msg(newmsgs, id)->Some_0;
        assert(newmsgs[j].id == id);
        if j < mi {
            assert(newmsgs[j] == ch.messages[j]);
            assert(ch.messages[j].id < ch.messages[mi].id);
        } else {
            assert(newmsgs[j] == ch.messages[j + 1]);
            assert(ch.messages[mi].id < ch.messages[j + 1].id);
        }
        assert(false);
    }
}

/// Missing-table behavior: the lookups surface an unknown table
/// without error — `None` for a schema or a row, an empty scan —
/// while every mutation reports it and leaves the namespace
/// untouched.
pub proof fn law_missing_table(
    g: GuildV,
    table: Seq<u8>,
    key: Seq<u8>,
    rows: Seq<RowV>,
    entries: Seq<KeyedRowV>,
    keys: Seq<Seq<u8>>,
)
    requires
        find_chan(g.channels, lower(table)) is None,
    ensures
        spec_fetch_schema(g, table) == Result::<Option<SchemaV>, StorageError>::Ok(
            Option::<SchemaV>::None,
        ),
        parse_key_spec(key) is Some ==> spec_fetch_data(g, table, key) == Result::<
            Option<RowV>,
            StorageError,
        >::Ok(Option::<RowV>::None),
        spec_scan_data(g, table) == Result::<Seq<KeyedRowV>, StorageError>::Ok(
            Seq::<KeyedRowV>::empty(),
        ),
        spec_append_data(g, table, rows) == (
            g,
            Result::<(), StorageError>::Err(StorageError::NotFound),
        ),
        spec_insert_data(g, table, entries) == (
            g,
            Result::<(), StorageError>::Err(StorageError::NotFound),
        ),
        spec_delete_data(g, table, keys) == (
            g,
            Result::<(), StorageError>::Err(StorageError::NotFound),
        ),
        spec_delete_schema(g, table) == (
            g,
            Result::<(), StorageError>::Err(StorageError::NotFound),
        ),
{
}

/// A channel that is well formed against one identifier bound is well
/// formed against any larger one.
proof fn lemma_chan_wf_grow(ch: ChannelV, n1: u64, n2: u64)
    requires
        ch.wf(n1),
        n1 <= n2,
    ensures
        ch.wf(n2),
{
}

/// Replacing one channel with a well-formed one of the same name and
/// identifier, possibly advancing the identifier bound, keeps the
/// namespace well formed.
proof fn lemma_wf_update(g: GuildV, ci: int, ch2: ChannelV, next2: u64)
    requires
        g.wf(),
        0 <= ci < g.channels.len(),
        ch2.name == g.channels[ci].name,
        ch2.id == g.channels[ci].id,
        ch2.wf(next2),
        g.next_id <= next2,
    ensures
        (GuildV { channels: g.channels.update(ci, ch2), next_id: next2 }).wf(),
{
    let g2 = GuildV { channels: g.channels.update(ci, ch2), next_id: next2 };
    assert forall|i: int| 0 <= i < g2.channels.len() implies (#[trigger] g2.channels[i]).wf(
        next2,
    ) by {
        if i != ci {
            assert(g2.channels[i] == g.channels[i]);
            lemma_chan_wf_grow(g.channels[i], g.next_id, next2);
        }
    }
    assert forall|i: int| 0 <= i < g2.channels.len() implies (#[trigger] g2.channels[i]).id
        < next2 by {
        assert(g.channels[i].id < g.next_id);
        assert(g2.channels[i].id == g.channels[i].id);
    }
    assert forall|i: int, j: int| 0 <= i < j < g2.channels.len() implies (
    #[trigger] g2.channels[i]).id != (#[trigger] g2.channels[j]).id by {
        assert(g2.channels[i].id == g.channels[i].id);
        assert(g2.channels[j].id == g.channels[j].id);
    }
    assert forall|i: int| 0 <= i < g2.channels.len() implies (#[trigger] g2.channels[i]).name
        == lower(g2.channels[i].name) by {
        assert(g2.channels[i].name == g.channels[i].name);
    }
}

/// A run of freshly posted row messages is sorted and bounded.
proof fn lemma_rows_msgs_wf(ch: ChannelV, rows: Seq<RowV>, next: u64)
    requires
        ch.wf(next),
        next + rows.len() <= u64::MAX,
    ensures
        (ChannelV { messages: ch.messages + rows_msgs(rows, next), ..ch }).wf(
            (next + rows.len()) as u64,
        ),
{
    let ms = ch.messages + rows_msgs(rows, next);
    let bound = (next + rows.len()) as u64;
    assert forall|j: int, k: int| 0 <= j < k < ms.len() implies #[trigger] ms[j].id
        < #[trigger] ms[k].id by {
        if k < ch.messages.len() {
            assert(ms[j] == ch.messages[j] && ms[k] == ch.messages[k]);
        } else if j < ch.messages.len() {
            assert(ms[j] == ch.messages[j]);
            assert(ms[k] == msg_of_row(rows[k - ch.messages.len()], (next + k
                - ch.messages.len()) as u64));
            assert(ms[j].id < next);
        } else {
            assert(ms[j] == msg_of_row(rows[j - ch.messages.len()], (next + j
                - ch.messages.len()) as u64));
            assert(ms[k] == msg_of_row(rows[k - ch.messages.len()], (next + k
                - ch.messages.len()) as u64));
        }
    }
    assert forall|j: int| 0 <= j < ms.len() implies (#[trigger] ms[j]).id < bound by {
        if j < ch.messages.len() {
            assert(ms[j] == ch.messages[j]);
            assert(ms[j].id < next);
        } else {
            assert(ms[j] == msg_of_row(rows[j - ch.messages.len()], (next + j
                - ch.messages.len()) as u64));
        }
    }
}

/// Model invariant, schema insertion: a well-formed namespace stays
/// well formed.
pub proof fn law_insert_schema_wf(g: GuildV, sc: SchemaV)
    requires
        g.wf(),
        g.next_id + 2 <= u64::MAX,
    ensures
        spec_insert_schema(g, sc).0.wf(),
{
    if !sc.has_primary_key() {
        let lname = lower(sc.table_name);
        match find_chan(g.channels, lname) {
            Option::Some(ci) => {
                lemma_find_chan(g.channels, lname);
                let ch = g.channels[ci];
                if ch.pins().len() == 0 {
                    let m = MessageV {
                        id: g.next_id,
                        content: fence_wrap(ser_schema(sc)),
                        pinned: true,
                        regular: true,
                    };
                    let ch2 = ChannelV { messages: ch.messages.push(m), ..ch };
                    assert(ch2.wf((g.next_id + 1) as u64)) by {
                        assert(forall|j: int|
                            0 <= j < ch.messages.len() ==> #[trigger] ch2.messages[j]
                                == ch.messages[j]);
                        assert(ch2.messages[ch.messages.len() as int] == m);
                    }
                    lemma_wf_update(g, ci, ch2, (g.next_id + 1) as u64);
                }
            },
            Option::None => {
                lemma_find_chan(g.channels, lname);
                let ch0 = ChannelV {
                    id: g.next_id,
                    name: lname,
                    messages: Seq::<MessageV>::empty(),
                };
                let ga = GuildV {
                    channels: g.channels.push(ch0),
                    next_id: (g.next_id + 1) as u64,
                };
                lemma_lower_idempotent(sc.table_name);
                assert(ga.wf()) by {
                    assert forall|i: int| 0 <= i < ga.channels.len() implies (
                    #[trigger] ga.channels[i]).wf(ga.next_id) by {
                        if i < g.channels.len() {
                            assert(ga.channels[i] == g.channels[i]);
                            lemma_chan_wf_grow(g.channels[i], g.next_id, ga.next_id);
                        } else {
                            assert(ga.channels[i] == ch0);
                        }
                    }
                    assert forall|i: int, j: int|
                        0 <= i < j < ga.channels.len() implies (#[trigger] ga.channels[i]).id != (
                    #[trigger] ga.channels[j]).id by {
                        if j < g.channels.len() {
                            assert(ga.channels[i] == g.channels[i]);
                            assert(ga.channels[j] == g.channels[j]);
                        } else {
                            assert(ga.channels[i] == g.channels[i]);
                            assert(ga.channels[j] == ch0);
                            assert(g.channels[i].id < g.next_id);
                        }
                    }
                    assert(forall|i: int|
                        0 <= i < ga.channels.len() ==> (#[trigger] ga.channels[i]).id
                            < ga.next_id);
                    assert(forall|i: int|
                        0 <= i < ga.channels.len() ==> (#[trigger] ga.channels[i]).name == lower(
                            ga.channels[i].name,
                        ));
                }
                let ci = g.channels.len() as int;
                lemma_pinned_of_none(ch0.messages);
                let m = MessageV {
                    id: ga.next_id,
                    content: fence_wrap(ser_schema(sc)),
                    pinned: true,
                    regular: true,
                };
                let ch2 = ChannelV { messages: ch0.messages.push(m), ..ch0 };
                assert(ch2.wf((ga.next_id + 1) as u64)) by {
                    assert(ch2.messages[0] == m);
                }
                lemma_wf_update(ga, ci, ch2, (ga.next_id + 1) as u64);
            },
        }
    }
}

/// Model invariant, schema deletion: dropping a channel keeps the
/// namespace well formed.
pub proof fn law_delete_schema_wf(g: GuildV, table: Seq<u8>)
    requires
        g.wf(),
    ensures
        spec_delete_schema(g, table).0.wf(),
{
    match find_chan(g.channels, lower(table)) {
        Option::None => {},
        Option::Some(ci) => {
            lemma_find_chan(g.channels, lower(table));
            let g2 = spec_delete_schema(g, table).0;
            assert(forall|i: int|
                0 <= i < g2.channels.len() ==> #[trigger] g2.channels[i] == g.channels[
                    if i < ci {
                        i
                    } else {
                        i + 1
                    }
                ]);
            assert(g2.wf());
        },
    }
}

/// Model invariant, append: posting rows keeps the namespace well
/// formed.
pub proof fn law_append_data_wf(g: GuildV, table: Seq<u8>, rows: Seq<RowV>)
    requires
        g.wf(),
        g.next_id + rows.len() <= u64::MAX,
    ensures
        spec_append_data(g, table, rows).0.wf(),
{
    match find_chan(g.channels, lower(table)) {
        Option::None => {},
        Option::Some(ci) => {
            lemma_find_chan(g.channels, lower(table));
            let ch = g.channels[ci];
            lemma_rows_msgs_wf(ch, rows, g.next_id);
            lemma_wf_update(
                g,
                ci,
                ChannelV { messages: ch.messages + rows_msgs(rows, g.next_id), ..ch },
                (g.next_id + rows.len()) as u64,
            );
        },
    }
}

/// Model invariant, upsert: each edit keeps identifiers in place and
/// each miss posts a fresh, larger identifier.
proof fn lemma_insert_pairs_wf(g: GuildV, ci: int, entries: Seq<KeyedRowV>)
    requires
        g.wf(),
        0 <= ci < g.channels.len(),
        g.next_id + entries.len() <= u64::MAX,
    ensures
        spec_insert_pairs(g, ci, entries).0.wf(),
    decreases entries.len(),
{
    if entries.len() > 0 {
        let e = entries[0];
        match parse_key_spec(e.key) {
            Option::None => {},
            Option::Some(id) => {
                let ch = g.channels[ci];
                let content = fence_wrap(ser_row(e.row));
                match find_msg(ch.messages, id) {
                    Option::Some(mi) => {
                        lemma_find_msg(ch.messages, id);
                        let ch2 = ChannelV {
                            messages: ch.messages.update(
                                mi,
                                MessageV { content, ..ch.messages[mi] },
                            ),
                            ..ch
                        };
                        assert(ch2.wf(g.next_id)) by {
                            assert(forall|j: int|
                                0 <= j < ch2.messages.len() ==> (#[trigger] ch2.messages[j]).id
                                    == ch.messages[j].id);
                        }
                        lemma_wf_update(g, ci, ch2, g.next_id);
                        lemma_insert_pairs_wf(
                            GuildV { channels: g.channels.update(ci, ch2), ..g },
                            ci,
                            entries.skip(1),
                        );
                    },
                    Option::None => {
                        let m = MessageV { id: g.next_id, content, pinned: false, regular: true };
                        let ch2 = ChannelV { messages: ch.messages.push(m), ..ch };
                        assert(ch2.wf((g.next_id + 1) as u64)) by {
                            assert(forall|j: int|
                                0 <= j < ch.messages.len() ==> #[trigger] ch2.messages[j]
                                    == ch.messages[j]);
                            assert(ch2.messages[ch.messages.len() as int] == m);
                        }
                        lemma_wf_update(g, ci, ch2, (g.next_id + 1) as u64);
                        lemma_insert_pairs_wf(
                            GuildV {
                                channels: g.channels.update(ci, ch2),
                                next_id: (g.next_id + 1) as u64,
                            },
                            ci,
                            entries.skip(1),
                        );
                    },
                }
            },
        }
    }
}

/// Model invariant, upsert: a well-formed namespace stays well
/// formed.
pub proof fn law_insert_data_wf(g: GuildV, table: Seq<u8>, entries: Seq<KeyedRowV>)
    requires
        g.wf(),
        g.next_id + entries.len() <= u64::MAX,
    ensures
        spec_insert_data(g, table, entries).0.wf(),
{
    match find_chan(g.channels, lower(table)) {
        Option::None => {},
        Option::Some(ci) => {
            lemma_find_chan(g.channels, lower(table));
            lemma_insert_pairs_wf(g, ci, entries);
        },
    }
}

/// Model invariant, deletion: removing messages keeps the namespace
/// well formed.
proof fn lemma_delete_keys_wf(g: GuildV, ci: int, keys: Seq<Seq<u8>>)
    requires
        g.wf(),
        0 <= ci < g.channels.len(),
    ensures
        spec_delete_keys(g, ci, keys).0.wf(),
    decreases keys.len(),
{
    if keys.len() > 0 {
        match parse_key_spec(keys[0]) {
            Option::None => {},
            Option::Some(id) => {
                let ch = g.channels[ci];
                match find_msg(ch.messages, id) {
                    Option::None => {},
                    Option::Some(mi) => {
                        lemma_find_msg(ch.messages, id);
                        let ch2 = ChannelV { messages: ch.messages.remove(mi), ..ch };
                        assert(ch2.wf(g.next_id)) by {
                            assert(forall|j: int|
                                0 <= j < ch2.messages.len() ==> #[trigger] ch2.messages[j]
                                    == ch.messages[
                                    if j < mi {
                                        j
                                    } else {
                                        j + 1
                                    }
                                ]);
                        }
                        lemma_wf_update(g, ci, ch2, g.next_id);
                        lemma_delete_keys_wf(
                            GuildV { channels: g.channels.update(ci, ch2), ..g },
                            ci,
                            keys.skip(1),
                        );
                    },
                }
            },
        }
    }
}

/// Model invariant, row deletion: a well-formed namespace stays well
/// formed.
pub proof fn law_delete_data_wf(g: GuildV, table: Seq<u8>, keys: Seq<Seq<u8>>)
    requires
        g.wf(),
    ensures
        spec_delete_data(g, table, keys).0.wf(),
{
    match find_chan(g.channels, lower(table)) {
        Option::None => {},
        Option::Some(ci) => {
            lemma_find_chan(g.channels, lower(table));
            lemma_delete_keys_wf(g, ci, keys);
        },
    }
}

/// Every row-bearing message of a sorted message list keeps an
/// identifier above any bound the whole list respects.
proof fn lemma_data_of_above(ms: Seq<MessageV>, b: u64)
    requires
        forall|j: int| 0 <= j < ms.len() ==> (#[trigger] ms[j]).id > b,
    ensures
        forall|k: int| 0 <= k < data_of(ms).len() ==> (#[trigger] data_of(ms)[k]).id > b,
    decreases ms.len(),
{
    if ms.len() > 0 {
        assert(forall|j: int| 0 <= j < ms.skip(1).len() ==> #[trigger] ms.skip(1)[j] == ms[j + 1]);
        lemma_data_of_above(ms.skip(1), b);
        if is_data_msg(ms[0]) {
            assert(forall|k: int|
                0 <= k < data_of(ms).len() ==> #[trigger] data_of(ms)[k] == (seq![ms[0]] + data_of(
                    ms.skip(1),
                ))[k]);
        }
    }
}

/// Filtering to the row-bearing messages keeps the identifier order.
proof fn lemma_data_of_sorted(ms: Seq<MessageV>)
    requires
        forall|j: int, k: int|
            0 <= j < k < ms.len() ==> #[trigger] ms[j].id < #[trigger] ms[k].id,
    ensures
        forall|j: int, k: int|
            0 <= j < k < data_of(ms).len() ==> #[trigger] data_of(ms)[j].id
                < #[trigger] data_of(ms)[k].id,
    decreases ms.len(),
{
    if ms.len() > 0 {
        let rest = ms.skip(1);
        assert(forall|j: int| 0 <= j < rest.len() ==> #[trigger] rest[j] == ms[j + 1]);
        lemma_data_of_sorted(rest);
        if is_data_msg(ms[0]) {
            assert(forall|j: int| 0 <= j < rest.len() ==> (#[trigger] rest[j]).id > ms[0].id);
            lemma_data_of_above(rest, ms[0].id);
            let d = data_of(ms);
            assert(d == seq![ms[0]] + data_of(rest));
            assert forall|j: int, k: int| 0 <= j < k < d.len() implies #[trigger] d[j].id
                < #[trigger] d[k].id by {
                if j == 0 {
                    assert(d[k] == data_of(rest)[k - 1]);
                } else {
                    assert(d[j] == data_of(rest)[j - 1]);
                    assert(d[k] == data_of(rest)[k - 1]);
                }
            }
        }
    }
}

/// A scan is the row-bearing messages, keyed, element by element.
proof fn lemma_scan_of_keyed(ms: Seq<MessageV>)
    ensures
        scan_of(ms).len() == data_of(ms).len(),
        forall|k: int|
            0 <= k < scan_of(ms).len() ==> #[trigger] scan_of(ms)[k] == keyed_of(data_of(ms)[k]),
    decreases ms.len(),
{
    if ms.len() > 0 {
        lemma_scan_of_keyed(ms.skip(1));
        if is_data_msg(ms[0]) {
            let sc = scan_of(ms);
            let d = data_of(ms);
            assert forall|k: int| 0 <= k < sc.len() implies #[trigger] sc[k] == keyed_of(
                d[k],
            ) by {
                if k == 0 {
                    assert(sc[0] == keyed_of(ms[0]));
                    assert(d[0] == ms[0]);
                } else {
                    assert(sc[k] == scan_of(ms.skip(1))[k - 1]);
                    assert(d[k] == data_of(ms.skip(1))[k - 1]);
                }
            }
        }
    }
}

/// Scan ordering, in general: on a well-formed namespace, a scan
/// returns rows oldest first — the numeric values of the keys are
/// strictly increasing along the result.
pub proof fn law_scan_ordered(g: GuildV, table: Seq<u8>)
    requires
        g.wf(),
        find_chan(g.channels, lower(table)) is Some,
    ensures
        spec_scan_data(g, table) is Ok,
        ({
            let rows = spec_scan_data(g, table)->Ok_0;
            forall|i: int, j: int|
                0 <= i < j < rows.len() ==> {
                    &&& parse_key_spec(#[trigger] rows[i].key) is Some
                    &&& parse_key_spec(#[trigger] rows[j].key) is Some
                    &&& parse_key_spec(rows[i].key)->Some_0
                        < parse_key_spec(rows[j].key)->Some_0
                }
        }),
{
    let ci = find_chan(g.channels, lower(table))->Some_0;
    lemma_find_chan(g.channels, lower(table));
    let ch = g.channels[ci];
    lemma_scan_of_keyed(ch.messages);
    lemma_data_of_sorted(ch.messages);
    let rows = spec_scan_data(g, table)->Ok_0;
    assert forall|i: int, j: int| 0 <= i < j < rows.len() implies {
        &&& parse_key_spec(#[trigger] rows[i].key) is Some
        &&& parse_key_spec(#[trigger] rows[j].key) is Some
        &&& parse_key_spec(rows[i].key)->Some_0 < parse_key_spec(
            rows[j].key,
        )->Some_0
    } by {
        let d = data_of(ch.messages);
        assert(rows[i] == keyed_of(d[i]));
        assert(rows[j] == keyed_of(d[j]));
        lemma_parse_key_of_dec_digits(d[i].id);
        lemma_parse_key_of_dec_digits(d[j].id);
        assert(d[i].id < d[j].id);
    }
}

} // verus!
