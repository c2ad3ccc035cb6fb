//! Conversion of dynamic host values straight into database values, and of
//! named-parameter mappings into bindable values.
use vstd::prelude::*;
use crate::encode::{EncModel, Encodable, EncodeError, encode, encoded};
use crate::value::{CqlModel, CqlValue, DynModel, DynValue, copy_bytes, copy_text};

verus! {

/// The elements of a sequence converted in order; the first failure fails all.
pub open spec fn as_cql_list(items: Seq<DynModel>) -> Result<Seq<CqlModel>, Seq<char>>
    decreases items,
{
    if items.len() == 0 {
        Ok(Seq::empty())
    } else {
        match as_cql_list(items.subrange(0, items.len() - 1)) {
            Err(n) => Err(n),
            Ok(s) => match as_cql(items[items.len() - 1]) {
                Ok(x) => Ok(s.push(x)),
                Err(n) => Err(n),
            },
        }
    }
}

/// The entries of a mapping converted in order, key before value; the first
/// failure fails all.
pub open spec fn as_cql_pairs(es: Seq<(DynModel, DynModel)>) -> Result<
    Seq<(CqlModel, CqlModel)>,
    Seq<char>,
>
    decreases es,
{
    if es.len() == 0 {
        Ok(Seq::empty())
    } else {
        match as_cql_pairs(es.subrange(0, es.len() - 1)) {
            Err(n) => Err(n),
            Ok(s) => match as_cql(es[es.len() - 1].0) {
                Err(n) => Err(n),
                Ok(k) => match as_cql(es[es.len() - 1].1) {
                    Err(n) => Err(n),
                    Ok(x) => Ok(s.push((k, x))),
                },
            },
        }
    }
}

/// The database value a dynamic value converts to, probing null, boolean,
/// integer (32-bit when it fits), floats, text, bytes, sequence, mapping;
/// or the name of the host type that no probe accepts.
pub open spec fn as_cql(d: DynModel) -> Result<CqlModel, Seq<char>>
    decreases d,
{
    match d {
        DynModel::Null => Ok(CqlModel::Empty),
        DynModel::Bool(b) => Ok(CqlModel::Boolean(b)),
        DynModel::Int(i) => if i32::MIN <= i <= i32::MAX {
            Ok(CqlModel::Int(i as i32))
        } else {
            Ok(CqlModel::BigInt(i))
        },
        DynModel::Float32(f) => Ok(CqlModel::Float(f)),
        DynModel::Float64(f) => Ok(CqlModel::Double(f)),
        DynModel::Text(s) => Ok(CqlModel::Text(s)),
        DynModel::Bytes(b) => Ok(CqlModel::Blob(b)),
        DynModel::List(items) => match as_cql_list(items) {
            Ok(s) => Ok(CqlModel::List(s)),
            Err(n) => Err(n),
        },
        DynModel::Dict(es) => match as_cql_pairs(es) {
            Ok(s) => Ok(CqlModel::MapOf(s)),
            Err(n) => Err(n),
        },
        DynModel::Other(n) => Err(n),
    }
}

proof fn lemma_list_error_extends(s: Seq<DynModel>, k: int)
    requires
        0 <= k <= s.len(),
        as_cql_list(s.subrange(0, k)) is Err,
    ensures
        as_cql_list(s) == as_cql_list(s.subrange(0, k)),
    decreases s.len() - k,
{
    if k < s.len() {
        assert(s.subrange(0, k + 1).subrange(0, k) =~= s.subrange(0, k));
        lemma_list_error_extends(s, k + 1);
    } else {
        assert(s.subrange(0, k) =~= s);
    }
}

proof fn lemma_pairs_error_extends(s: Seq<(DynModel, DynModel)>, k: int)
    requires
        0 <= k <= s.len(),
        as_cql_pairs(s.subrange(0, k)) is Err,
    ensures
        as_cql_pairs(s) == as_cql_pairs(s.subrange(0, k)),
    decreases s.len() - k,
{
    if k < s.len() {
        assert(s.subrange(0, k + 1).subrange(0, k) =~= s.subrange(0, k));
        lemma_pairs_error_extends(s, k + 1);
    } else {
        assert(s.subrange(0, k) =~= s);
    }
}

fn to_cql_seq(items: &Vec<DynValue>) -> (r: Result<Vec<CqlValue>, EncodeError>)
    ensures
        match (r, as_cql_list(Seq::new(items.len() as nat, |i: int| items[i]@))) {
            (Ok(out), Ok(s)) => out.len() == s.len() && forall|i: int|
                0 <= i < s.len() ==> (#[trigger] out[i])@ == s[i],
            (Err(EncodeError::UnsupportedType(n)), Err(m)) => n@ == m,
            _ => false,
        },
    decreases items,
{
    let ghost es = Seq::new(items.len() as nat, |i: int| items[i]@);
    let mut out: Vec<CqlValue> = Vec::new();
    let mut i: usize = 0;
    assert(es.subrange(0, 0) =~= Seq::<DynModel>::empty());
    while i < items.len()
        invariant
            i <= items.len(),
            es == Seq::new(items.len() as nat, |i: int| items[i]@),
            as_cql_list(es.subrange(0, i as int)) is Ok,
            out.len() == i,
            out.len() == as_cql_list(es.subrange(0, i as int))->Ok_0.len(),
            forall|j: int|
                0 <= j < i ==> (#[trigger] out[j])@ == as_cql_list(es.subrange(0, i as int))->Ok_0[j],
        decreases items.len() - i,
    {
        let ghost prev = as_cql_list(es.subrange(0, i as int))->Ok_0;
        assert(es.subrange(0, i + 1).subrange(0, i as int) =~= es.subrange(0, i as int));
        assert(es.subrange(0, i + 1)[i as int] == items[i as int]@);
        match to_cql(&items[i]) {
            Ok(x) => {
                out.push(x);
                assert(as_cql_list(es.subrange(0, i + 1)) == Ok::<Seq<CqlModel>, Seq<char>>(
                    prev.push(x@),
                ));
            },
            Err(e) => {
                proof {
                    lemma_list_error_extends(es, i + 1);
                }
                return Err(e);
            },
        }
        i = i + 1;
    }
    assert(es.subrange(0, i as int) =~= es);
    Ok(out)
}

fn to_cql_pairs(entries: &Vec<(DynValue, DynValue)>) -> (r: Result<
    Vec<(CqlValue, CqlValue)>,
    EncodeError,
>)
    ensures
        match (r, as_cql_pairs(Seq::new(entries.len() as nat, |i: int| (entries[i].0@, entries[i].1@)))) {
            (Ok(out), Ok(s)) => out.len() == s.len() && forall|i: int|
                0 <= i < s.len() ==> (#[trigger] out[i]).0@ == s[i].0 && out[i].1@ == s[i].1,
            (Err(EncodeError::UnsupportedType(n)), Err(m)) => n@ == m,
            _ => false,
        },
    decreases entries,
{
    let ghost es = Seq::new(entries.len() as nat, |i: int| (entries[i].0@, entries[i].1@));
    let mut out: Vec<(CqlValue, CqlValue)> = Vec::new();
    let mut i: usize = 0;
    assert(es.subrange(0, 0) =~= Seq::<(DynModel, DynModel)>::empty());
    while i < entries.len()
        invariant
            i <= entries.len(),
            es == Seq::new(entries.len() as nat, |i: int| (entries[i].0@, entries[i].1@)),
            as_cql_pairs(es.subrange(0, i as int)) is Ok,
            out.len() == i,
            out.len() == as_cql_pairs(es.subrange(0, i as int))->Ok_0.len(),
            forall|j: int|
                0 <= j < i ==> (#[trigger] out[j]).0@ == as_cql_pairs(es.subrange(0, i as int))->Ok_0[j].0
                    && out[j].1@ == as_cql_pairs(es.subrange(0, i as int))->Ok_0[j].1,
        decreases entries.len() - i,
    {
        let ghost prev = as_cql_pairs(es.subrange(0, i as int))->Ok_0;
        assert(es.subrange(0, i + 1).subrange(0, i as int) =~= es.subrange(0, i as int));
        assert(es.subrange(0, i + 1)[i as int] == (entries[i as int].0@, entries[i as int].1@));
        proof {
            assert(decreases_to!(*entries => entries[i as int]));
        }
        let k = match to_cql(&entries[i].0) {
            Ok(k) => k,
            Err(e) => {
                proof {
                    lemma_pairs_error_extends(es, i + 1);
                }
                return Err(e);
            },
        };
        let x = match to_cql(&entries[i].1) {
            Ok(x) => x,
            Err(e) => {
                proof {
                    lemma_pairs_error_extends(es, i + 1);
                }
                return Err(e);
            },
        };
        out.push((k, x));
        assert(as_cql_pairs(es.subrange(0, i + 1)) == Ok::<Seq<(CqlModel, CqlModel)>, Seq<char>>(
            prev.push((out[i as int].0@, out[i as int].1@)),
        ));
        i = i + 1;
    }
    assert(es.subrange(0, i as int) =~= es);
    Ok(out)
}

/// Converts a dynamic value into a database value by probing its kind:
/// null, boolean, integer (32-bit when it fits, else 64-bit), 32-bit float,
/// 64-bit float, text, bytes, sequence (as a list), mapping (as a map).
pub fn to_cql(v: &DynValue) -> (r: Result<CqlValue, EncodeError>)
    ensures
        match (r, as_cql(v@)) {
            (Ok(x), Ok(m)) => x@ == m,
            (Err(EncodeError::UnsupportedType(n)), Err(m)) => n@ == m,
            _ => false,
        },
    decreases v,
{
    match v {
        DynValue::Null => Ok(CqlValue::Empty),
        DynValue::Bool(b) => Ok(CqlValue::Boolean(*b)),
        DynValue::Int(i) => if i32::MIN as i64 <= *i && *i <= i32::MAX as i64 {
            Ok(CqlValue::Int(*i as i32))
        } else {
            Ok(CqlValue::BigInt(*i))
        },
        DynValue::Float32(f) => Ok(CqlValue::Float(*f)),
        DynValue::Float64(f) => Ok(CqlValue::Double(*f)),
        DynValue::Text(s) => Ok(CqlValue::Text(copy_text(s))),
        DynValue::Bytes(b) => Ok(CqlValue::Blob(copy_bytes(b))),
        DynValue::List(items) => {
            let ghost es = Seq::new(items.len() as nat, |i: int| items[i]@);
            assert(v@ == DynModel::List(es)) by {
                if let DynModel::List(t) = v@ {
                    assert(t =~= es);
                }
            }
            match to_cql_seq(items) {
                Ok(out) => {
                    let r = CqlValue::List(out);
                    assert(r@ == as_cql(v@)->Ok_0) by {
                        if let CqlModel::List(t) = r@ {
                            assert(t =~= as_cql_list(es)->Ok_0);
                        }
                    }
                    Ok(r)
                },
                Err(e) => Err(e),
            }
        },
        DynValue::Dict(entries) => {
            let ghost es = Seq::new(entries.len() as nat, |i: int| (entries[i].0@, entries[i].1@));
            assert(v@ == DynModel::Dict(es)) by {
                if let DynModel::Dict(t) = v@ {
                    assert(t =~= es);
                }
            }
            match to_cql_pairs(entries) {
                Ok(out) => {
                    let r = CqlValue::MapOf(out);
                    assert(r@ == as_cql(v@)->Ok_0) by {
                        if let CqlModel::MapOf(t) = r@ {
                            assert(t =~= as_cql_pairs(es)->Ok_0);
                        }
                    }
                    Ok(r)
                },
                Err(e) => Err(e),
            }
        },
        DynValue::Other(n) => Err(EncodeError::UnsupportedType(copy_text(n))),
    }
}

/// Why a named-parameter mapping could not be converted.
pub enum ParamFailure {
    KeyNotText,
    Unsupported(Seq<char>),
}

/// A named-parameter mapping converted entry by entry, in order, with
/// `convert` applied to each value: every key must be text, and the first
/// failure fails all.
pub open spec fn params_with<T>(
    es: Seq<(DynModel, DynModel)>,
    convert: spec_fn(DynModel) -> Result<T, Seq<char>>,
) -> Result<Seq<(Seq<char>, T)>, ParamFailure>
    decreases es.len(),
{
    if es.len() == 0 {
        Ok(Seq::empty())
    } else {
        match params_with(es.subrange(0, es.len() - 1), convert) {
            Err(f) => Err(f),
            Ok(s) => if es[es.len() - 1].0 is Text {
                match convert(es[es.len() - 1].1) {
                    Ok(x) => Ok(s.push((es[es.len() - 1].0->Text_0, x))),
                    Err(n) => Err(ParamFailure::Unsupported(n)),
                }
            } else {
                Err(ParamFailure::KeyNotText)
            },
        }
    }
}

proof fn lemma_params_error_extends<T>(
    s: Seq<(DynModel, DynModel)>,
    convert: spec_fn(DynModel) -> Result<T, Seq<char>>,
    k: int,
)
    requires
        0 <= k <= s.len(),
        params_with(s.subrange(0, k), convert) is Err,
    ensures
        params_with(s, convert) == params_with(s.subrange(0, k), convert),
    decreases s.len() - k,
{
    if k < s.len() {
        assert(s.subrange(0, k + 1).subrange(0, k) =~= s.subrange(0, k));
        lemma_params_error_extends(s, convert, k + 1);
    } else {
        assert(s.subrange(0, k) =~= s);
    }
}

/// Whether an error reports a failure of the parameter mapping.
pub open spec fn reports(e: EncodeError, f: ParamFailure) -> bool {
    match (e, f) {
        (EncodeError::KeyNotText, ParamFailure::KeyNotText) => true,
        (EncodeError::UnsupportedType(n), ParamFailure::Unsupported(m)) => n@ == m,
        _ => false,
    }
}

pub open spec fn encoded_fn() -> spec_fn(DynModel) -> Result<EncModel, Seq<char>> {
    |d: DynModel| encoded(d)
}

pub open spec fn as_cql_fn() -> spec_fn(DynModel) -> Result<CqlModel, Seq<char>> {
    |d: DynModel| as_cql(d)
}

/// The model of an optional parameter mapping; no mapping is an empty one.
pub open spec fn params_model(dict: Option<Vec<(DynValue, DynValue)>>) -> Seq<(DynModel, DynModel)> {
    match dict {
        Some(es) => Seq::new(es.len() as nat, |i: int| (es[i].0@, es[i].1@)),
        None => Seq::empty(),
    }
}

/// Encodes a named-parameter mapping for binding: each key must be text and
/// each value is encoded as [`encode`] does.
pub fn dict_to_encodables(dict: &Option<Vec<(DynValue, DynValue)>>) -> (r: Result<
    Vec<(String, Encodable)>,
    EncodeError,
>)
    ensures
        match (r, params_with(params_model(*dict), encoded_fn())) {
            (Ok(out), Ok(s)) => out.len() == s.len() && forall|i: int|
                0 <= i < s.len() ==> (#[trigger] out[i]).0@ == s[i].0 && out[i].1@ == s[i].1,
            (Err(e), Err(f)) => reports(e, f),
            _ => false,
        },
{
    let ghost es = params_model(*dict);
    let mut out: Vec<(String, Encodable)> = Vec::new();
    match dict {
        None => {
            return Ok(out);
        },
        Some(entries) => {
            let mut i: usize = 0;
            assert(es.subrange(0, 0) =~= Seq::<(DynModel, DynModel)>::empty());
            while i < entries.len()
                invariant
                    i <= entries.len(),
                    es == params_model(*dict),
                    es == Seq::new(entries.len() as nat, |i: int| (entries[i].0@, entries[i].1@)),
                    params_with(es.subrange(0, i as int), encoded_fn()) is Ok,
                    out.len() == i,
                    out.len() == params_with(es.subrange(0, i as int), encoded_fn())->Ok_0.len(),
                    forall|j: int|
                        0 <= j < i ==> (#[trigger] out[j]).0@ == params_with(
                            es.subrange(0, i as int),
                            encoded_fn(),
                        )->Ok_0[j].0 && out[j].1@ == params_with(
                            es.subrange(0, i as int),
                            encoded_fn(),
                        )->Ok_0[j].1,
                decreases entries.len() - i,
            {
                let ghost prev = params_with(es.subrange(0, i as int), encoded_fn())->Ok_0;
                assert(es.subrange(0, i + 1).subrange(0, i as int) =~= es.subrange(0, i as int));
                assert(es.subrange(0, i + 1)[i as int] == (entries[i as int].0@, entries[i as int].1@));
                let key = match &entries[i].0 {
                    DynValue::Text(k) => copy_text(k),
                    _ => {
                        proof {
                            assert(params_with(es.subrange(0, i + 1), encoded_fn()) == Err::<
                                Seq<(Seq<char>, EncModel)>,
                                ParamFailure,
                            >(ParamFailure::KeyNotText));
                            lemma_params_error_extends(es, encoded_fn(), i + 1);
                        }
                        return Err(EncodeError::KeyNotText);
                    },
                };
                match encode(&entries[i].1) {
                    Ok(x) => {
                        out.push((key, x));
                    },
                    Err(e) => {
                        proof {
                            assert(encoded_fn()(entries[i as int].1@) == encoded(entries[i as int].1@));
                            assert(params_with(es.subrange(0, i + 1), encoded_fn()) == Err::<
                                Seq<(Seq<char>, EncModel)>,
                                ParamFailure,
                            >(ParamFailure::Unsupported(encoded(entries[i as int].1@)->Err_0)));
                            lemma_params_error_extends(es, encoded_fn(), i + 1);
                        }
                        return Err(e);
                    },
                }
                i = i + 1;
            }
            assert(es.subrange(0, i as int) =~= es);
            Ok(out)
        },
    }
}

/// Converts a named-parameter mapping into database values: each key must
/// be text and each value is converted as [`to_cql`] does.
pub fn dict_to_values(dict: &Option<Vec<(DynValue, DynValue)>>) -> (r: Result<
    Vec<(String, CqlValue)>,
    EncodeError,
>)
    ensures
        match (r, params_with(params_model(*dict), as_cql_fn())) {
            (Ok(out), Ok(s)) => out.len() == s.len() && forall|i: int|
                0 <= i < s.len() ==> (#[trigger] out[i]).0@ == s[i].0 && out[i].1@ == s[i].1,
            (Err(e), Err(f)) => reports(e, f),
            _ => false,
        },
{
    let ghost es = params_model(*dict);
    let mut out: Vec<(String, CqlValue)> = Vec::new();
    match dict {
        None => {
            return Ok(out);
        },
        Some(entries) => {
            let mut i: usize = 0;
            assert(es.subrange(0, 0) =~= Seq::<(DynModel, DynModel)>::empty());
            while i < entries.len()
                invariant
                    i <= entries.len(),
                    es == params_model(*dict),
                    es == Seq::new(entries.len() as nat, |i: int| (entries[i].0@, entries[i].1@)),
                    params_with(es.subrange(0, i as int), as_cql_fn()) is Ok,
                    out.len() == i,
                    out.len() == params_with(es.subrange(0, i as int), as_cql_fn())->Ok_0.len(),
                    forall|j: int|
                        0 <= j < i ==> (#[trigger] out[j]).0@ == params_with(
                            es.subrange(0, i as int),
                            as_cql_fn(),
                        )->Ok_0[j].0 && out[j].1@ == params_with(
                            es.subrange(0, i as int),
                            as_cql_fn(),
                        )->Ok_0[j].1,
                decreases entries.len() - i,
            {
                let ghost prev = params_with(es.subrange(0, i as int), as_cql_fn())->Ok_0;
                assert(es.subrange(0, i + 1).subrange(0, i as int) =~= es.subrange(0, i as int));
                assert(es.subrange(0, i + 1)[i as int] == (entries[i as int].0@, entries[i as int].1@));
                let key = match &entries[i].0 {
                    DynValue::Text(k) => copy_text(k),
                    _ => {
                        proof {
                            assert(params_with(es.subrange(0, i + 1), as_cql_fn()) == Err::<
                                Seq<(Seq<char>, CqlModel)>,
                                ParamFailure,
                            >(ParamFailure::KeyNotText));
                            lemma_params_error_extends(es, as_cql_fn(), i + 1);
                        }
                        return Err(EncodeError::KeyNotText);
                    },
                };
                match to_cql(&entries[i].1) {
                    Ok(x) => {
                        out.push((key, x));
                    },
                    Err(e) => {
                        proof {
                            assert(as_cql_fn()(entries[i as int].1@) == as_cql(entries[i as int].1@));
                            assert(params_with(es.subrange(0, i + 1), as_cql_fn()) == Err::<
                                Seq<(Seq<char>, CqlModel)>,
                                ParamFailure,
                            >(ParamFailure::Unsupported(as_cql(entries[i as int].1@)->Err_0)));
                            lemma_params_error_extends(es, as_cql_fn(), i + 1);
                        }
                        return Err(e);
                    },
                }
                i = i + 1;
            }
            assert(es.subrange(0, i as int) =~= es);
            Ok(out)
        },
    }
}

} // verus!
