//! The database value taxonomy and the dynamic host values, with their models.
use vstd::prelude::*;

verus! {

/// A value tagged with its database wire type.
///
/// Floating-point payloads are held as their IEEE-754 bit patterns. Values
/// whose representation is opaque (uuids, addresses, arbitrary-precision
/// numbers) are held in their canonical textual form.
#[derive(Debug, PartialEq)]
pub enum CqlValue {
    /// The null marker.
    Empty,
    Ascii(String),
    Text(String),
    Boolean(bool),
    Int(i32),
    BigInt(i64),
    SmallInt(i16),
    TinyInt(i8),
    Counter(i64),
    Float(u32),
    Double(u64),
    Blob(Vec<u8>),
    Uuid(String),
    Timeuuid(String),
    Inet(String),
    List(Vec<CqlValue>),
    SetOf(Vec<CqlValue>),
    MapOf(Vec<(CqlValue, CqlValue)>),
    Tuple(Vec<Option<CqlValue>>),
    UserDefinedType { keyspace: String, udt_name: String, fields: Vec<(String, Option<CqlValue>)> },
    /// Milliseconds since the epoch.
    Timestamp(i64),
    /// Days since the epoch, offset by 2^31.
    Date(u32),
    /// Nanoseconds since midnight.
    Time(i64),
    Duration { months: i32, days: i32, nanoseconds: i64 },
    Varint(String),
    Decimal(String),
    /// A wire type this layer does not enumerate, in its textual debug form.
    Unknown(String),
}

/// The mathematical model of a [`CqlValue`].
pub enum CqlModel {
    Empty,
    Ascii(Seq<char>),
    Text(Seq<char>),
    Boolean(bool),
    Int(i32),
    BigInt(i64),
    SmallInt(i16),
    TinyInt(i8),
    Counter(i64),
    Float(u32),
    Double(u64),
    Blob(Seq<u8>),
    Uuid(Seq<char>),
    Timeuuid(Seq<char>),
    Inet(Seq<char>),
    List(Seq<CqlModel>),
    SetOf(Seq<CqlModel>),
    MapOf(Seq<(CqlModel, CqlModel)>),
    Tuple(Seq<Option<CqlModel>>),
    UserDefinedType { keyspace: Seq<char>, udt_name: Seq<char>, fields: Seq<(Seq<char>, Option<CqlModel>)> },
    Timestamp(i64),
    Date(u32),
    Time(i64),
    Duration { months: i32, days: i32, nanoseconds: i64 },
    Varint(Seq<char>),
    Decimal(Seq<char>),
    Unknown(Seq<char>),
}

pub open spec fn opt_model(o: Option<CqlValue>) -> Option<CqlModel>
    decreases o,
{
    match o {
        Some(v) => Some(cql_model(v)),
        None => None,
    }
}

pub open spec fn cql_model(v: CqlValue) -> CqlModel
    decreases v,
{
    match v {
        CqlValue::Empty => CqlModel::Empty,
        CqlValue::Ascii(s) => CqlModel::Ascii(s@),
        CqlValue::Text(s) => CqlModel::Text(s@),
        CqlValue::Boolean(b) => CqlModel::Boolean(b),
        CqlValue::Int(i) => CqlModel::Int(i),
        CqlValue::BigInt(i) => CqlModel::BigInt(i),
        CqlValue::SmallInt(i) => CqlModel::SmallInt(i),
        CqlValue::TinyInt(i) => CqlModel::TinyInt(i),
        CqlValue::Counter(i) => CqlModel::Counter(i),
        CqlValue::Float(f) => CqlModel::Float(f),
        CqlValue::Double(f) => CqlModel::Double(f),
        CqlValue::Blob(b) => CqlModel::Blob(b@),
        CqlValue::Uuid(s) => CqlModel::Uuid(s@),
        CqlValue::Timeuuid(s) => CqlModel::Timeuuid(s@),
        CqlValue::Inet(s) => CqlModel::Inet(s@),
        CqlValue::List(items) => CqlModel::List(
            Seq::new(
                items.len() as nat,
                |i: int|
                    if 0 <= i < items.len() {
                        cql_model(items[i])
                    } else {
                        CqlModel::Empty
                    },
            ),
        ),
        CqlValue::SetOf(items) => CqlModel::SetOf(
            Seq::new(
                items.len() as nat,
                |i: int|
                    if 0 <= i < items.len() {
                        cql_model(items[i])
                    } else {
                        CqlModel::Empty
                    },
            ),
        ),
        CqlValue::MapOf(entries) => CqlModel::MapOf(
            Seq::new(
                entries.len() as nat,
                |i: int|
                    if 0 <= i < entries.len() {
                        (cql_model(entries[i].0), cql_model(entries[i].1))
                    } else {
                        (CqlModel::Empty, CqlModel::Empty)
                    },
            ),
        ),
        CqlValue::Tuple(slots) => CqlModel::Tuple(
            Seq::new(
                slots.len() as nat,
                |i: int|
                    if 0 <= i < slots.len() {
                        opt_model(slots[i])
                    } else {
                        None
                    },
            ),
        ),
        CqlValue::UserDefinedType { keyspace, udt_name, fields } => CqlModel::UserDefinedType {
            keyspace: keyspace@,
            udt_name: udt_name@,
            fields: Seq::new(
                fields.len() as nat,
                |i: int|
                    if 0 <= i < fields.len() {
                        (fields[i].0@, opt_model(fields[i].1))
                    } else {
                        (Seq::empty(), None)
                    },
            ),
        },
        CqlValue::Timestamp(t) => CqlModel::Timestamp(t),
        CqlValue::Date(d) => CqlModel::Date(d),
        CqlValue::Time(t) => CqlModel::Time(t),
        CqlValue::Duration { months, days, nanoseconds } => CqlModel::Duration {
            months,
            days,
            nanoseconds,
        },
        CqlValue::Varint(s) => CqlModel::Varint(s@),
        CqlValue::Decimal(s) => CqlModel::Decimal(s@),
        CqlValue::Unknown(s) => CqlModel::Unknown(s@),
    }
}

impl View for CqlValue {
    type V = CqlModel;

    open spec fn view(&self) -> CqlModel {
        cql_model(*self)
    }
}

/// A value of the dynamically typed host runtime.
///
/// Floats are held as their IEEE-754 bit patterns. `Other` is a host object
/// of a type that has no counterpart here, carried with its type name.
#[derive(Debug, PartialEq)]
pub enum DynValue {
    Null,
    Bool(bool),
    Int(i64),
    Float32(u32),
    Float64(u64),
    Text(String),
    Bytes(Vec<u8>),
    List(Vec<DynValue>),
    /// A mapping's entries in its order. Host mappings have unique keys;
    /// nothing here relies on it, and a repeated key is carried as given.
    Dict(Vec<(DynValue, DynValue)>),
    Other(String),
}

/// The mathematical model of a [`DynValue`].
pub enum DynModel {
    Null,
    Bool(bool),
    Int(i64),
    Float32(u32),
    Float64(u64),
    Text(Seq<char>),
    Bytes(Seq<u8>),
    List(Seq<DynModel>),
    Dict(Seq<(DynModel, DynModel)>),
    Other(Seq<char>),
}

pub open spec fn dyn_model(v: DynValue) -> DynModel
    decreases v,
{
    match v {
        DynValue::Null => DynModel::Null,
        DynValue::Bool(b) => DynModel::Bool(b),
        DynValue::Int(i) => DynModel::Int(i),
        DynValue::Float32(f) => DynModel::Float32(f),
        DynValue::Float64(f) => DynModel::Float64(f),
        DynValue::Text(s) => DynModel::Text(s@),
        DynValue::Bytes(b) => DynModel::Bytes(b@),
        DynValue::List(items) => DynModel::List(
            Seq::new(
                items.len() as nat,
                |i: int|
                    if 0 <= i < items.len() {
                        dyn_model(items[i])
                    } else {
                        DynModel::Null
                    },
            ),
        ),
        DynValue::Dict(entries) => DynModel::Dict(
            Seq::new(
                entries.len() as nat,
                |i: int|
                    if 0 <= i < entries.len() {
                        (dyn_model(entries[i].0), dyn_model(entries[i].1))
                    } else {
                        (DynModel::Null, DynModel::Null)
                    },
            ),
        ),
        DynValue::Other(s) => DynModel::Other(s@),
    }
}

impl View for DynValue {
    type V = DynModel;

    open spec fn view(&self) -> DynModel {
        dyn_model(*self)
    }
}

pub fn copy_text(s: &String) -> (r: String)
    ensures
        r@ == s@,
{
    s.clone()
}

pub fn copy_bytes(b: &Vec<u8>) -> (r: Vec<u8>)
    ensures
        r@ == b@,
{
    let mut out: Vec<u8> = Vec::new();
    let mut i: usize = 0;
    while i < b.len()
        invariant
            i <= b.len(),
            out@ == b@.subrange(0, i as int),
        decreases b.len() - i,
    {
        out.push(b[i]);
        i = i + 1;
    }
    assert(out@ =~= b@);
    out
}

fn copy_seq(items: &Vec<CqlValue>) -> (r: Vec<CqlValue>)
    ensures
        r.len() == items.len(),
        forall|i: int| 0 <= i < items.len() ==> (#[trigger] r[i])@ == items[i]@,
    decreases items,
{
    let mut out: Vec<CqlValue> = Vec::new();
    let mut i: usize = 0;
    while i < items.len()
        invariant
            i <= items.len(),
            out.len() == i,
            forall|j: int| 0 <= j < i ==> (#[trigger] out[j])@ == items[j]@,
        decreases items.len() - i,
    {
        out.push(items[i].copy());
        i = i + 1;
    }
    out
}

fn copy_pairs(entries: &Vec<(CqlValue, CqlValue)>) -> (r: Vec<(CqlValue, CqlValue)>)
    ensures
        r.len() == entries.len(),
        forall|i: int|
            0 <= i < entries.len() ==> (#[trigger] r[i]).0@ == entries[i].0@ && r[i].1@
                == entries[i].1@,
    decreases entries,
{
    let mut out: Vec<(CqlValue, CqlValue)> = Vec::new();
    let mut i: usize = 0;
    while i < entries.len()
        invariant
            i <= entries.len(),
            out.len() == i,
            forall|j: int|
                0 <= j < i ==> (#[trigger] out[j]).0@ == entries[j].0@ && out[j].1@
                    == entries[j].1@,
        decreases entries.len() - i,
    {
        proof {
            assert(decreases_to!(*entries => entries[i as int]));
        }
        let k = entries[i].0.copy();
        let x = entries[i].1.copy();
        out.push((k, x));
        i = i + 1;
    }
    out
}

/// A copy of an optional value with the same model.
pub fn copy_opt(o: &Option<CqlValue>) -> (r: Option<CqlValue>)
    ensures
        opt_model(r) == opt_model(*o),
    decreases o,
{
    match o {
        Some(v) => Some(v.copy()),
        None => None,
    }
}

fn copy_slots(slots: &Vec<Option<CqlValue>>) -> (r: Vec<Option<CqlValue>>)
    ensures
        r.len() == slots.len(),
        forall|i: int| 0 <= i < slots.len() ==> opt_model(#[trigger] r[i]) == opt_model(slots[i]),
    decreases slots,
{
    let mut out: Vec<Option<CqlValue>> = Vec::new();
    let mut i: usize = 0;
    while i < slots.len()
        invariant
            i <= slots.len(),
            out.len() == i,
            forall|j: int| 0 <= j < i ==> opt_model(#[trigger] out[j]) == opt_model(slots[j]),
        decreases slots.len() - i,
    {
        proof {
            assert(decreases_to!(*slots => slots[i as int]));
        }
        out.push(copy_opt(&slots[i]));
        i = i + 1;
    }
    out
}

fn copy_fields(fields: &Vec<(String, Option<CqlValue>)>) -> (r: Vec<(String, Option<CqlValue>)>)
    ensures
        r.len() == fields.len(),
        forall|i: int|
            0 <= i < fields.len() ==> (#[trigger] r[i]).0@ == fields[i].0@ && opt_model(r[i].1)
                == opt_model(fields[i].1),
    decreases fields,
{
    let mut out: Vec<(String, Option<CqlValue>)> = Vec::new();
    let mut i: usize = 0;
    while i < fields.len()
        invariant
            i <= fields.len(),
            out.len() == i,
            forall|j: int|
                0 <= j < i ==> (#[trigger] out[j]).0@ == fields[j].0@ && opt_model(out[j].1)
                    == opt_model(fields[j].1),
        decreases fields.len() - i,
    {
        proof {
            assert(decreases_to!(*fields => fields[i as int]));
        }
        let k = copy_text(&fields[i].0);
        let x = copy_opt(&fields[i].1);
        out.push((k, x));
        i = i + 1;
    }
    out
}

impl CqlValue {
    /// A deep copy with the same model.
    pub fn copy(&self) -> (r: CqlValue)
        ensures
            r@ == self@,
        decreases self,
    {
        match self {
            CqlValue::Empty => CqlValue::Empty,
            CqlValue::Ascii(s) => CqlValue::Ascii(copy_text(s)),
            CqlValue::Text(s) => CqlValue::Text(copy_text(s)),
            CqlValue::Boolean(b) => CqlValue::Boolean(*b),
            CqlValue::Int(i) => CqlValue::Int(*i),
            CqlValue::BigInt(i) => CqlValue::BigInt(*i),
            CqlValue::SmallInt(i) => CqlValue::SmallInt(*i),
            CqlValue::TinyInt(i) => CqlValue::TinyInt(*i),
            CqlValue::Counter(i) => CqlValue::Counter(*i),
            CqlValue::Float(f) => CqlValue::Float(*f),
            CqlValue::Double(f) => CqlValue::Double(*f),
            CqlValue::Blob(b) => CqlValue::Blob(copy_bytes(b)),
            CqlValue::Uuid(s) => CqlValue::Uuid(copy_text(s)),
            CqlValue::Timeuuid(s) => CqlValue::Timeuuid(copy_text(s)),
            CqlValue::Inet(s) => CqlValue::Inet(copy_text(s)),
            CqlValue::List(items) => {
                let r = CqlValue::List(copy_seq(items));
                assert(r@ == self@) by {
                    if let CqlModel::List(a) = r@ {
                        if let CqlModel::List(b) = self@ {
                            assert(a =~= b);
                        }
                    }
                }
                r
            },
            CqlValue::SetOf(items) => {
                let r = CqlValue::SetOf(copy_seq(items));
                assert(r@ == self@) by {
                    if let CqlModel::SetOf(a) = r@ {
                        if let CqlModel::SetOf(b) = self@ {
                            assert(a =~= b);
                        }
                    }
                }
                r
            },
            CqlValue::MapOf(entries) => {
                let r = CqlValue::MapOf(copy_pairs(entries));
                assert(r@ == self@) by {
                    if let CqlModel::MapOf(a) = r@ {
                        if let CqlModel::MapOf(b) = self@ {
                            assert(a =~= b);
                        }
                    }
                }
                r
            },
            CqlValue::Tuple(slots) => {
                let r = CqlValue::Tuple(copy_slots(slots));
                assert(r@ == self@) by {
                    if let CqlModel::Tuple(a) = r@ {
                        if let CqlModel::Tuple(b) = self@ {
                            assert(a =~= b);
                        }
                    }
                }
                r
            },
            CqlValue::UserDefinedType { keyspace, udt_name, fields } => {
                let r = CqlValue::UserDefinedType {
                    keyspace: copy_text(keyspace),
                    udt_name: copy_text(udt_name),
                    fields: copy_fields(fields),
                };
                assert(r@ == self@) by {
                    if let CqlModel::UserDefinedType { fields: a, .. } = r@ {
                        if let CqlModel::UserDefinedType { fields: b, .. } = self@ {
                            assert(a =~= b);
                        }
                    }
                }
                r
            },
            CqlValue::Timestamp(t) => CqlValue::Timestamp(*t),
            CqlValue::Date(d) => CqlValue::Date(*d),
            CqlValue::Time(t) => CqlValue::Time(*t),
            CqlValue::Duration { months, days, nanoseconds } => CqlValue::Duration {
                months: *months,
                days: *days,
                nanoseconds: *nanoseconds,
            },
            CqlValue::Varint(s) => CqlValue::Varint(copy_text(s)),
            CqlValue::Decimal(s) => CqlValue::Decimal(copy_text(s)),
            CqlValue::Unknown(s) => CqlValue::Unknown(copy_text(s)),
        }
    }
}

} // verus!
