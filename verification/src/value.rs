//! The structured values the adapter stores: cell values, rows, and
//! table schemas, together with their mathematical views.
//!
//! Text is carried as bytes throughout the library; the transport turns
//! bytes into platform strings at the edge.

use vstd::prelude::*;

verus! {

/// The data type a column declares. The adapter stores the tag and
/// never interprets it; every type name the engine knows is carried.
#[derive(Clone, Copy, PartialEq, Eq, Structural, Debug)]
pub enum DataType {
    Boolean,
    Int8,
    Int16,
    Int32,
    Int,
    Int128,
    Uint8,
    Uint16,
    Uint32,
    Uint64,
    Uint128,
    Float32,
    Float,
    Text,
    Bytea,
    Inet,
    Date,
    Timestamp,
    Time,
    Interval,
    Uuid,
    /// The engine's MAP type.
    Dict,
    List,
    Decimal,
    Point,
}

/// The uniqueness constraint a column declares.
#[derive(Clone, Copy, PartialEq, Eq, Structural, Debug)]
pub enum ColumnUnique {
    /// No uniqueness constraint.
    Plain,
    /// Unique, but not the primary key.
    Unique,
    /// The primary key; rejected by schema insertion.
    Primary,
}

/// A single cell value, as plain data: every integer width the
/// engine has, text and raw bytes, calendar values reduced to
/// integers (a date as its day number from the Common Era, a time as
/// seconds from midnight plus nanoseconds, a timestamp as seconds
/// from the epoch plus nanoseconds), and floating-point values and
/// points carried bit-exactly as their bit patterns. Decimals and
/// network addresses travel as their canonical text, and nested
/// values (the engine's LIST and MAP) as the engine's own serialized
/// text — all opaque to the adapter, stored and fetched back byte for
/// byte.
#[derive(Clone, Debug, PartialEq, Eq)]
pub enum Value {
    Null,
    Bool(bool),
    I8(i8),
    I16(i16),
    I32(i32),
    Int(i64),
    I128(i128),
    U8(u8),
    U16(u16),
    U32(u32),
    U64(u64),
    U128(u128),
    Str(Vec<u8>),
    Bytea(Vec<u8>),
    Date(i32),
    Time(u32, u32),
    Timestamp(i64, u32),
    IntervalMonth(i32),
    IntervalMicrosecond(i64),
    Uuid(u128),
    Decimal(Vec<u8>),
    Inet(Vec<u8>),
    F32Bits(u32),
    F64Bits(u64),
    Point(u64, u64),
    List(Vec<u8>),
    Dict(Vec<u8>),
}

/// The mathematical view of a [`Value`].
#[verifier::ext_equal]
pub enum ValueV {
    Null,
    Bool(bool),
    I8(i8),
    I16(i16),
    I32(i32),
    Int(i64),
    I128(i128),
    U8(u8),
    U16(u16),
    U32(u32),
    U64(u64),
    U128(u128),
    Str(Seq<u8>),
    Bytea(Seq<u8>),
    Date(i32),
    Time(u32, u32),
    Timestamp(i64, u32),
    IntervalMonth(i32),
    IntervalMicrosecond(i64),
    Uuid(u128),
    Decimal(Seq<u8>),
    Inet(Seq<u8>),
    F32Bits(u32),
    F64Bits(u64),
    Point(u64, u64),
    List(Seq<u8>),
    Dict(Seq<u8>),
}

impl View for Value {
    type V = ValueV;

    open spec fn view(&self) -> ValueV {
        match *self {
            Value::Null => ValueV::Null,
            Value::Bool(b) => ValueV::Bool(b),
            Value::I8(n) => ValueV::I8(n),
            Value::I16(n) => ValueV::I16(n),
            Value::I32(n) => ValueV::I32(n),
            Value::Int(n) => ValueV::Int(n),
            Value::I128(n) => ValueV::I128(n),
            Value::U8(n) => ValueV::U8(n),
            Value::U16(n) => ValueV::U16(n),
            Value::U32(n) => ValueV::U32(n),
            Value::U64(n) => ValueV::U64(n),
            Value::U128(n) => ValueV::U128(n),
            Value::Str(s) => ValueV::Str(s@),
            Value::Bytea(s) => ValueV::Bytea(s@),
            Value::Date(d) => ValueV::Date(d),
            Value::Time(sec, ns) => ValueV::Time(sec, ns),
            Value::Timestamp(sec, ns) => ValueV::Timestamp(sec, ns),
            Value::IntervalMonth(m) => ValueV::IntervalMonth(m),
            Value::IntervalMicrosecond(us) => ValueV::IntervalMicrosecond(us),
            Value::Uuid(u) => ValueV::Uuid(u),
            Value::Decimal(t) => ValueV::Decimal(t@),
            Value::Inet(t) => ValueV::Inet(t@),
            Value::F32Bits(b) => ValueV::F32Bits(b),
            Value::F64Bits(b) => ValueV::F64Bits(b),
            Value::Point(x, y) => ValueV::Point(x, y),
            Value::List(t) => ValueV::List(t@),
            Value::Dict(t) => ValueV::Dict(t@),
        }
    }
}

/// A named cell of a field-map row.
#[derive(Clone, Debug, PartialEq, Eq)]
pub struct Field {
    pub name: Vec<u8>,
    pub value: Value,
}

/// The mathematical view of a [`Field`].
#[verifier::ext_equal]
pub struct FieldV {
    pub name: Seq<u8>,
    pub value: ValueV,
}

impl View for Field {
    type V = FieldV;

    open spec fn view(&self) -> FieldV {
        FieldV { name: self.name@, value: self.value@ }
    }
}

/// A row of a table: either a positional list of values (for a table
/// with a schema) or a list of named fields (for schemaless data and
/// for the raw-content fallback of the decoder).
#[derive(Clone, Debug, PartialEq, Eq)]
pub enum Row {
    Values(Vec<Value>),
    Fields(Vec<Field>),
}

/// The mathematical view of a [`Row`].
#[verifier::ext_equal]
pub enum RowV {
    Values(Seq<ValueV>),
    Fields(Seq<FieldV>),
}

/// The views of a sequence of values, element by element.
pub open spec fn value_views(vs: Seq<Value>) -> Seq<ValueV> {
    vs.map_values(|v: Value| v@)
}

/// The views of a sequence of fields, element by element.
pub open spec fn field_views(fs: Seq<Field>) -> Seq<FieldV> {
    fs.map_values(|f: Field| f@)
}

/// The views of a sequence of rows, element by element.
pub open spec fn row_views(rs: Seq<Row>) -> Seq<RowV> {
    rs.map_values(|r: Row| r@)
}

impl View for Row {
    type V = RowV;

    open spec fn view(&self) -> RowV {
        match *self {
            Row::Values(vs) => RowV::Values(value_views(vs@)),
            Row::Fields(fs) => RowV::Fields(field_views(fs@)),
        }
    }
}

/// One column of a table schema. The default expression and the
/// comment are carried as opaque text (the engine's own rendering of
/// them), stored and fetched back byte for byte.
#[derive(Debug, PartialEq, Eq)]
pub struct ColumnDef {
    pub name: Vec<u8>,
    pub data_type: DataType,
    pub nullable: bool,
    pub default: Option<Vec<u8>>,
    pub comment: Option<Vec<u8>>,
    pub unique: ColumnUnique,
}

/// The mathematical view of a [`ColumnDef`].
#[verifier::ext_equal]
pub struct ColumnDefV {
    pub name: Seq<u8>,
    pub data_type: DataType,
    pub nullable: bool,
    pub default: Option<Seq<u8>>,
    pub comment: Option<Seq<u8>>,
    pub unique: ColumnUnique,
}

/// The view of optional opaque text.
pub open spec fn opt_text_view(t: Option<Vec<u8>>) -> Option<Seq<u8>> {
    match t {
        Option::None => Option::None,
        Option::Some(s) => Option::Some(s@),
    }
}

impl View for ColumnDef {
    type V = ColumnDefV;

    open spec fn view(&self) -> ColumnDefV {
        ColumnDefV {
            name: self.name@,
            data_type: self.data_type,
            nullable: self.nullable,
            default: opt_text_view(self.default),
            comment: opt_text_view(self.comment),
            unique: self.unique,
        }
    }
}

/// A table schema: the table's name and, unless the table is
/// schemaless, its column definitions. Indexes, the engine clause,
/// foreign keys and the comment are carried as opaque text payloads
/// (the engine's own rendering), stored and fetched back byte for
/// byte; `None` stands for none of them.
#[derive(Debug, PartialEq, Eq)]
pub struct Schema {
    pub table_name: Vec<u8>,
    pub column_defs: Option<Vec<ColumnDef>>,
    pub indexes: Option<Vec<u8>>,
    pub engine: Option<Vec<u8>>,
    pub foreign_keys: Option<Vec<u8>>,
    pub comment: Option<Vec<u8>>,
}

/// The mathematical view of a [`Schema`].
#[verifier::ext_equal]
pub struct SchemaV {
    pub table_name: Seq<u8>,
    pub column_defs: Option<Seq<ColumnDefV>>,
    pub indexes: Option<Seq<u8>>,
    pub engine: Option<Seq<u8>>,
    pub foreign_keys: Option<Seq<u8>>,
    pub comment: Option<Seq<u8>>,
}

/// The views of a sequence of column definitions, element by element.
pub open spec fn col_views(cs: Seq<ColumnDef>) -> Seq<ColumnDefV> {
    cs.map_values(|c: ColumnDef| c@)
}

impl View for Schema {
    type V = SchemaV;

    open spec fn view(&self) -> SchemaV {
        SchemaV {
            table_name: self.table_name@,
            column_defs: match self.column_defs {
                Option::None => Option::None,
                Option::Some(cs) => Option::Some(col_views(cs@)),
            },
            indexes: opt_text_view(self.indexes),
            engine: opt_text_view(self.engine),
            foreign_keys: opt_text_view(self.foreign_keys),
            comment: opt_text_view(self.comment),
        }
    }
}

impl SchemaV {
    /// Whether any column of the schema declares a primary key.
    pub open spec fn has_primary_key(self) -> bool {
        match self.column_defs {
            Option::None => false,
            Option::Some(cs) => exists|i: int|
                0 <= i < cs.len() && cs[i].unique == ColumnUnique::Primary,
        }
    }
}

impl Schema {
    /// Whether any column of the schema declares a primary key.
    pub fn declares_primary_key(&self) -> (r: bool)
        ensures
            r == self@.has_primary_key(),
    {
        match self.column_defs {
            Option::None => false,
            Option::Some(ref cs) => {
                let mut i: usize = 0;
                while i < cs.len()
                    invariant
                        0 <= i <= cs.len(),
                        self.column_defs is Some,
                        *cs == self.column_defs->Some_0,
                        forall|j: int|
                            0 <= j < i ==> (#[trigger] cs@[j]).unique != ColumnUnique::Primary,
                    decreases cs.len() - i,
                {
                    if matches!(cs[i].unique, ColumnUnique::Primary) {
                        assert(self@.has_primary_key()) by {
                            assert(col_views(cs@)[i as int].unique == ColumnUnique::Primary);
                        }
                        return true;
                    }
                    i += 1;
                }
                false
            },
        }
    }
}

} // verus!
