//! The value decoder: database values rendered as dynamic host values.
use vstd::prelude::*;
use crate::value::{CqlModel, CqlValue, DynModel, DynValue, copy_bytes, copy_text};

verus! {

/// The dynamic rendering of an optional value: absence is the null marker.
pub open spec fn decoded_opt(o: Option<CqlModel>) -> DynModel
    decreases o,
{
    match o {
        Some(m) => decoded(m),
        None => DynModel::Null,
    }
}

pub open spec fn duration_dict(months: i32, days: i32, nanoseconds: i64) -> DynModel {
    DynModel::Dict(
        seq![
            (DynModel::Text(seq!['m', 'o', 'n', 't', 'h', 's']), DynModel::Int(months as i64)),
            (DynModel::Text(seq!['d', 'a', 'y', 's']), DynModel::Int(days as i64)),
            (
                DynModel::Text(seq!['n', 'a', 'n', 'o', 's', 'e', 'c', 'o', 'n', 'd', 's']),
                DynModel::Int(nanoseconds),
            ),
        ],
    )
}

/// What `decode` renders a value as.
///
/// Integers of every width widen to the host integer; text-like values
/// (uuids, addresses, arbitrary-precision numbers, unknown wire types) become
/// text; collections are rendered element by element, in their order.
pub open spec fn decoded(m: CqlModel) -> DynModel
    decreases m,
{
    match m {
        CqlModel::Empty => DynModel::Null,
        CqlModel::Ascii(s) => DynModel::Text(s),
        CqlModel::Text(s) => DynModel::Text(s),
        CqlModel::Boolean(b) => DynModel::Bool(b),
        CqlModel::Int(i) => DynModel::Int(i as i64),
        CqlModel::BigInt(i) => DynModel::Int(i),
        CqlModel::SmallInt(i) => DynModel::Int(i as i64),
        CqlModel::TinyInt(i) => DynModel::Int(i as i64),
        CqlModel::Counter(i) => DynModel::Int(i),
        CqlModel::Float(f) => DynModel::Float32(f),
        CqlModel::Double(f) => DynModel::Float64(f),
        CqlModel::Blob(b) => DynModel::Bytes(b),
        CqlModel::Uuid(s) => DynModel::Text(s),
        CqlModel::Timeuuid(s) => DynModel::Text(s),
        CqlModel::Inet(s) => DynModel::Text(s),
        CqlModel::List(items) => DynModel::List(
            Seq::new(
                items.len(),
                |i: int|
                    if 0 <= i < items.len() {
                        decoded(items[i])
                    } else {
                        DynModel::Null
                    },
            ),
        ),
        CqlModel::SetOf(items) => DynModel::List(
            Seq::new(
                items.len(),
                |i: int|
                    if 0 <= i < items.len() {
                        decoded(items[i])
                    } else {
                        DynModel::Null
                    },
            ),
        ),
        CqlModel::MapOf(entries) => DynModel::Dict(
            Seq::new(
                entries.len(),
                |i: int|
                    if 0 <= i < entries.len() {
                        (decoded(entries[i].0), decoded(entries[i].1))
                    } else {
                        (DynModel::Null, DynModel::Null)
                    },
            ),
        ),
        CqlModel::Tuple(slots) => DynModel::List(
            Seq::new(
                slots.len(),
                |i: int|
                    if 0 <= i < slots.len() {
                        decoded_opt(slots[i])
                    } else {
                        DynModel::Null
                    },
            ),
        ),
        CqlModel::UserDefinedType { fields, .. } => DynModel::Dict(
            Seq::new(
                fields.len(),
                |i: int|
                    if 0 <= i < fields.len() {
                        (DynModel::Text(fields[i].0), decoded_opt(fields[i].1))
                    } else {
                        (DynModel::Null, DynModel::Null)
                    },
            ),
        ),
        CqlModel::Timestamp(t) => DynModel::Int(t),
        CqlModel::Date(d) => DynModel::Int(d as i64),
        CqlModel::Time(t) => DynModel::Int(t),
        CqlModel::Duration { months, days, nanoseconds } => duration_dict(months, days, nanoseconds),
        CqlModel::Varint(s) => DynModel::Text(s),
        CqlModel::Decimal(s) => DynModel::Text(s),
        CqlModel::Unknown(s) => DynModel::Text(s),
    }
}

pub open spec fn opt_within_depth(o: Option<CqlModel>, d: nat) -> bool
    decreases o,
{
    match o {
        Some(m) => within_depth(m, d),
        None => true,
    }
}

/// Whether a value nests no deeper than `d` levels: a scalar takes one
/// level, a collection one more than its deepest element.
pub open spec fn within_depth(m: CqlModel, d: nat) -> bool
    decreases m,
{
    d >= 1 && match m {
        CqlModel::List(items) => forall|i: int|
            0 <= i < items.len() ==> within_depth(#[trigger] items[i], (d - 1) as nat),
        CqlModel::SetOf(items) => forall|i: int|
            0 <= i < items.len() ==> within_depth(#[trigger] items[i], (d - 1) as nat),
        CqlModel::MapOf(entries) => forall|i: int|
            0 <= i < entries.len() ==> within_depth(#[trigger] entries[i].0, (d - 1) as nat)
                && within_depth(entries[i].1, (d - 1) as nat),
        CqlModel::Tuple(slots) => forall|i: int|
            0 <= i < slots.len() ==> opt_within_depth(#[trigger] slots[i], (d - 1) as nat),
        CqlModel::UserDefinedType { fields, .. } => forall|i: int|
            0 <= i < fields.len() ==> opt_within_depth(#[trigger] fields[i].1, (d - 1) as nat),
        _ => true,
    }
}

/// Renders an optional value; absence becomes the null marker.
pub fn decode_opt(o: &Option<CqlValue>) -> (r: DynValue)
    ensures
        r@ == decoded_opt(crate::value::opt_model(*o)),
    decreases o,
{
    match o {
        Some(v) => decode(v),
        None => DynValue::Null,
    }
}

fn decode_seq(items: &Vec<CqlValue>) -> (r: Vec<DynValue>)
    ensures
        r.len() == items.len(),
        forall|i: int| 0 <= i < items.len() ==> (#[trigger] r[i])@ == decoded(items[i]@),
    decreases items,
{
    let mut out: Vec<DynValue> = Vec::new();
    let mut i: usize = 0;
    while i < items.len()
        invariant
            i <= items.len(),
            out.len() == i,
            forall|j: int| 0 <= j < i ==> (#[trigger] out[j])@ == decoded(items[j]@),
        decreases items.len() - i,
    {
        out.push(decode(&items[i]));
        i = i + 1;
    }
    out
}

fn decode_pairs(entries: &Vec<(CqlValue, CqlValue)>) -> (r: Vec<(DynValue, DynValue)>)
    ensures
        r.len() == entries.len(),
        forall|i: int|
            0 <= i < entries.len() ==> (#[trigger] r[i]).0@ == decoded(entries[i].0@) && r[i].1@
                == decoded(entries[i].1@),
    decreases entries,
{
    let mut out: Vec<(DynValue, DynValue)> = Vec::new();
    let mut i: usize = 0;
    while i < entries.len()
        invariant
            i <= entries.len(),
            out.len() == i,
            forall|j: int|
                0 <= j < i ==> (#[trigger] out[j]).0@ == decoded(entries[j].0@) && out[j].1@
                    == decoded(entries[j].1@),
        decreases entries.len() - i,
    {
        proof {
            assert(decreases_to!(*entries => entries[i as int]));
        }
        let k = decode(&entries[i].0);
        let x = decode(&entries[i].1);
        out.push((k, x));
        i = i + 1;
    }
    out
}

fn decode_slots(slots: &Vec<Option<CqlValue>>) -> (r: Vec<DynValue>)
    ensures
        r.len() == slots.len(),
        forall|i: int|
            0 <= i < slots.len() ==> (#[trigger] r[i])@ == decoded_opt(
                crate::value::opt_model(slots[i]),
            ),
    decreases slots,
{
    let mut out: Vec<DynValue> = Vec::new();
    let mut i: usize = 0;
    while i < slots.len()
        invariant
            i <= slots.len(),
            out.len() == i,
            forall|j: int|
                0 <= j < i ==> (#[trigger] out[j])@ == decoded_opt(
                    crate::value::opt_model(slots[j]),
                ),
        decreases slots.len() - i,
    {
        proof {
            assert(decreases_to!(*slots => slots[i as int]));
        }
        out.push(decode_opt(&slots[i]));
        i = i + 1;
    }
    out
}

fn decode_fields(fields: &Vec<(String, Option<CqlValue>)>) -> (r: Vec<(DynValue, DynValue)>)
    ensures
        r.len() == fields.len(),
        forall|i: int|
            0 <= i < fields.len() ==> (#[trigger] r[i]).0@ == DynModel::Text(fields[i].0@)
                && r[i].1@ == decoded_opt(crate::value::opt_model(fields[i].1)),
    decreases fields,
{
    let mut out: Vec<(DynValue, DynValue)> = Vec::new();
    let mut i: usize = 0;
    while i < fields.len()
        invariant
            i <= fields.len(),
            out.len() == i,
            forall|j: int|
                0 <= j < i ==> (#[trigger] out[j]).0@ == DynModel::Text(fields[j].0@)
                    && out[j].1@ == decoded_opt(crate::value::opt_model(fields[j].1)),
        decreases fields.len() - i,
    {
        proof {
            assert(decreases_to!(*fields => fields[i as int]));
        }
        let k = DynValue::Text(copy_text(&fields[i].0));
        let x = decode_opt(&fields[i].1);
        out.push((k, x));
        i = i + 1;
    }
    out
}

/// Renders a database value as a dynamic host value.
pub fn decode(v: &CqlValue) -> (r: DynValue)
    ensures
        r@ == decoded(v@),
    decreases v,
{
    match v {
        CqlValue::Empty => DynValue::Null,
        CqlValue::Ascii(s) => DynValue::Text(copy_text(s)),
        CqlValue::Text(s) => DynValue::Text(copy_text(s)),
        CqlValue::Boolean(b) => DynValue::Bool(*b),
        CqlValue::Int(i) => DynValue::Int(*i as i64),
        CqlValue::BigInt(i) => DynValue::Int(*i),
        CqlValue::SmallInt(i) => DynValue::Int(*i as i64),
        CqlValue::TinyInt(i) => DynValue::Int(*i as i64),
        CqlValue::Counter(i) => DynValue::Int(*i),
        CqlValue::Float(f) => DynValue::Float32(*f),
        CqlValue::Double(f) => DynValue::Float64(*f),
        CqlValue::Blob(b) => DynValue::Bytes(copy_bytes(b)),
        CqlValue::Uuid(s) => DynValue::Text(copy_text(s)),
        CqlValue::Timeuuid(s) => DynValue::Text(copy_text(s)),
        CqlValue::Inet(s) => DynValue::Text(copy_text(s)),
        CqlValue::List(items) => {
            let out = decode_seq(items);
            let r = DynValue::List(out);
            assert(r@ == decoded(v@)) by {
                if let DynModel::List(s) = r@ {
                    if let DynModel::List(t) = decoded(v@) {
                        assert(s =~= t);
                    }
                }
            }
            r
        },
        CqlValue::SetOf(items) => {
            let out = decode_seq(items);
            let r = DynValue::List(out);
            assert(r@ == decoded(v@)) by {
                if let DynModel::List(s) = r@ {
                    if let DynModel::List(t) = decoded(v@) {
                        assert(s =~= t);
                    }
                }
            }
            r
        },
        CqlValue::MapOf(entries) => {
            let r = DynValue::Dict(decode_pairs(entries));
            assert(r@ == decoded(v@)) by {
                if let DynModel::Dict(s) = r@ {
                    if let DynModel::Dict(t) = decoded(v@) {
                        assert(s =~= t);
                    }
                }
            }
            r
        },
        CqlValue::Tuple(slots) => {
            let r = DynValue::List(decode_slots(slots));
            assert(r@ == decoded(v@)) by {
                if let DynModel::List(s) = r@ {
                    if let DynModel::List(t) = decoded(v@) {
                        assert(s =~= t);
                    }
                }
            }
            r
        },
        CqlValue::UserDefinedType { fields, .. } => {
            let r = DynValue::Dict(decode_fields(fields));
            assert(r@ == decoded(v@)) by {
                if let DynModel::Dict(s) = r@ {
                    if let DynModel::Dict(t) = decoded(v@) {
                        assert(s =~= t);
                    }
                }
            }
            r
        },
        CqlValue::Timestamp(t) => DynValue::Int(*t),
        CqlValue::Date(d) => DynValue::Int(*d as i64),
        CqlValue::Time(t) => DynValue::Int(*t),
        CqlValue::Duration { months, days, nanoseconds } => {
            let months_key = "months".to_owned();
            let days_key = "days".to_owned();
            let nanos_key = "nanoseconds".to_owned();
            proof {
                reveal_strlit("months");
                reveal_strlit("days");
                reveal_strlit("nanoseconds");
                assert(months_key@ =~= seq!['m', 'o', 'n', 't', 'h', 's']);
                assert(days_key@ =~= seq!['d', 'a', 'y', 's']);
                assert(nanos_key@ =~= seq!['n', 'a', 'n', 'o', 's', 'e', 'c', 'o', 'n', 'd', 's']);
            }
            let mut entries: Vec<(DynValue, DynValue)> = Vec::new();
            entries.push((DynValue::Text(months_key), DynValue::Int(*months as i64)));
            entries.push((DynValue::Text(days_key), DynValue::Int(*days as i64)));
            entries.push((DynValue::Text(nanos_key), DynValue::Int(*nanoseconds)));
            let ghost e = entries;
            let r = DynValue::Dict(entries);
            assert(r@ == decoded(v@)) by {
                let t = seq![
                    (DynModel::Text(seq!['m', 'o', 'n', 't', 'h', 's']), DynModel::Int(*months as i64)),
                    (DynModel::Text(seq!['d', 'a', 'y', 's']), DynModel::Int(*days as i64)),
                    (
                        DynModel::Text(seq!['n', 'a', 'n', 'o', 's', 'e', 'c', 'o', 'n', 'd', 's']),
                        DynModel::Int(*nanoseconds),
                    ),
                ];
                let s = Seq::new(
                    e.len() as nat,
                    |i: int|
                        if 0 <= i < e.len() {
                            (crate::value::dyn_model(e[i].0), crate::value::dyn_model(e[i].1))
                        } else {
                            (DynModel::Null, DynModel::Null)
                        },
                );
                assert(s =~= t);
                if let DynModel::Dict(s2) = r@ {
                    assert(s2 =~= t);
                }
                assert(v@ == CqlModel::Duration { months: *months, days: *days, nanoseconds: *nanoseconds });
                assert(decoded(v@) == DynModel::Dict(t));
            }
            r
        },
        CqlValue::Varint(s) => DynValue::Text(copy_text(s)),
        CqlValue::Decimal(s) => DynValue::Text(copy_text(s)),
        CqlValue::Unknown(s) => DynValue::Text(copy_text(s)),
    }
}

fn opt_nests_within(o: &Option<CqlValue>, depth: usize) -> (r: bool)
    ensures
        r == opt_within_depth(crate::value::opt_model(*o), depth as nat),
    decreases o,
{
    match o {
        Some(v) => nests_within(v, depth),
        None => true,
    }
}

fn seq_nests_within(items: &Vec<CqlValue>, depth: usize) -> (r: bool)
    ensures
        r == forall|i: int| 0 <= i < items.len() ==> within_depth(#[trigger] items[i]@, depth as nat),
    decreases items,
{
    let mut i: usize = 0;
    while i < items.len()
        invariant
            i <= items.len(),
            forall|j: int| 0 <= j < i ==> within_depth(#[trigger] items[j]@, depth as nat),
        decreases items.len() - i,
    {
        if !nests_within(&items[i], depth) {
            return false;
        }
        i = i + 1;
    }
    true
}

fn pairs_nest_within(entries: &Vec<(CqlValue, CqlValue)>, depth: usize) -> (r: bool)
    ensures
        r == forall|i: int|
            0 <= i < entries.len() ==> within_depth((#[trigger] entries[i]).0@, depth as nat)
                && within_depth(entries[i].1@, depth as nat),
    decreases entries,
{
    let mut i: usize = 0;
    while i < entries.len()
        invariant
            i <= entries.len(),
            forall|j: int|
                0 <= j < i ==> within_depth((#[trigger] entries[j]).0@, depth as nat)
                    && within_depth(entries[j].1@, depth as nat),
        decreases entries.len() - i,
    {
        proof {
            assert(decreases_to!(*entries => entries[i as int]));
        }
        let key_ok = nests_within(&entries[i].0, depth);
        if !key_ok {
            return false;
        }
        let value_ok = nests_within(&entries[i].1, depth);
        if !value_ok {
            return false;
        }
        assert(within_depth(entries[i as int].0@, depth as nat) && within_depth(
            entries[i as int].1@,
            depth as nat,
        ));
        i = i + 1;
    }
    true
}

fn slots_nest_within(slots: &Vec<Option<CqlValue>>, depth: usize) -> (r: bool)
    ensures
        r == forall|i: int|
            0 <= i < slots.len() ==> opt_within_depth(
                crate::value::opt_model(#[trigger] slots[i]),
                depth as nat,
            ),
    decreases slots,
{
    let mut i: usize = 0;
    while i < slots.len()
        invariant
            i <= slots.len(),
            forall|j: int|
                0 <= j < i ==> opt_within_depth(crate::value::opt_model(#[trigger] slots[j]), depth as nat),
        decreases slots.len() - i,
    {
        proof {
            assert(decreases_to!(*slots => slots[i as int]));
        }
        if !opt_nests_within(&slots[i], depth) {
            return false;
        }
        i = i + 1;
    }
    true
}

fn fields_nest_within(fields: &Vec<(String, Option<CqlValue>)>, depth: usize) -> (r: bool)
    ensures
        r == forall|i: int|
            0 <= i < fields.len() ==> opt_within_depth(
                crate::value::opt_model(#[trigger] fields[i].1),
                depth as nat,
            ),
    decreases fields,
{
    let mut i: usize = 0;
    while i < fields.len()
        invariant
            i <= fields.len(),
            forall|j: int|
                0 <= j < i ==> opt_within_depth(
                    crate::value::opt_model(#[trigger] fields[j].1),
                    depth as nat,
                ),
        decreases fields.len() - i,
    {
        proof {
            assert(decreases_to!(*fields => fields[i as int]));
        }
        if !opt_nests_within(&fields[i].1, depth) {
            return false;
        }
        i = i + 1;
    }
    true
}

/// Whether a value nests no deeper than `depth` levels. The walk itself
/// descends at most `depth` levels.
pub fn nests_within(v: &CqlValue, depth: usize) -> (r: bool)
    ensures
        r == within_depth(v@, depth as nat),
    decreases v,
{
    if depth == 0 {
        return false;
    }
    let d = depth - 1;
    match v {
        CqlValue::List(items) => {
            let r = seq_nests_within(items, d);
            assert(r == within_depth(v@, depth as nat)) by {
                if let CqlModel::List(t) = v@ {
                    assert(t.len() == items.len());
                    assert forall|i: int|
                        #![trigger t[i]]
                        #![trigger items[i]]
                        0 <= i < t.len() implies within_depth(t[i], d as nat) == within_depth(
                            items[i]@,
                            d as nat,
                        ) by {
                        assert(t[i] == items[i]@);
                    }
                }
            }
            r
        },
        CqlValue::SetOf(items) => {
            let r = seq_nests_within(items, d);
            assert(r == within_depth(v@, depth as nat)) by {
                if let CqlModel::SetOf(t) = v@ {
                    assert(t.len() == items.len());
                    assert forall|i: int|
                        #![trigger t[i]]
                        #![trigger items[i]]
                        0 <= i < t.len() implies within_depth(t[i], d as nat) == within_depth(
                            items[i]@,
                            d as nat,
                        ) by {
                        assert(t[i] == items[i]@);
                    }
                }
            }
            r
        },
        CqlValue::MapOf(entries) => {
            let r = pairs_nest_within(entries, d);
            assert(r == within_depth(v@, depth as nat)) by {
                if let CqlModel::MapOf(t) = v@ {
                    assert(t.len() == entries.len());
                    assert forall|i: int|
                        #![trigger t[i]]
                        #![trigger entries[i]]
                        0 <= i < t.len() implies (within_depth(t[i].0, d as nat) && within_depth(
                            t[i].1,
                            d as nat,
                        )) == (within_depth(entries[i].0@, d as nat) && within_depth(
                            entries[i].1@,
                            d as nat,
                        )) by {
                        assert(t[i] == (entries[i].0@, entries[i].1@));
                    }
                    assert(within_depth(v@, depth as nat) == (forall|i: int|
                        0 <= i < t.len() ==> within_depth(#[trigger] t[i].0, d as nat)
                            && within_depth(t[i].1, d as nat)));
                    assert(r == (forall|i: int|
                        0 <= i < entries.len() ==> within_depth((#[trigger] entries[i]).0@, d as nat)
                            && within_depth(entries[i].1@, d as nat)));
                }
            }
            r
        },
        CqlValue::Tuple(slots) => {
            let r = slots_nest_within(slots, d);
            assert(r == within_depth(v@, depth as nat)) by {
                if let CqlModel::Tuple(t) = v@ {
                    assert(forall|i: int|
                        0 <= i < t.len() ==> t[i] == crate::value::opt_model(#[trigger] slots[i]));
                }
            }
            r
        },
        CqlValue::UserDefinedType { fields, .. } => {
            let r = fields_nest_within(fields, d);
            assert(r == within_depth(v@, depth as nat)) by {
                if let CqlModel::UserDefinedType { fields: t, .. } = v@ {
                    assert(forall|i: int|
                        0 <= i < t.len() ==> t[i].1 == crate::value::opt_model(#[trigger] fields[i].1));
                }
            }
            r
        },
        _ => true,
    }
}

/// Renders a value as [`decode`] does, but only when it nests no deeper
/// than `max_depth` levels; deeper input is refused before any rendering.
pub fn decode_guarded(v: &CqlValue, max_depth: usize) -> (r: Option<DynValue>)
    ensures
        r is Some <==> within_depth(v@, max_depth as nat),
        r matches Some(x) ==> x@ == decoded(v@),
{
    if nests_within(v, max_depth) {
        Some(decode(v))
    } else {
        None
    }
}

} // verus!
