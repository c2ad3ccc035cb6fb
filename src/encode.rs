//! The type-inference encoder: dynamic host values turned into values the
//! driver can bind, by probing the value's kind in a fixed order.
use vstd::prelude::*;
use vstd::arithmetic::div_mod::{lemma_basic_div, lemma_mod_pos_bound, lemma_multiply_divide_lt, lemma_small_mod};
use vstd::arithmetic::power2::{lemma2_to64, lemma_pow2_adds, lemma_pow2_strictly_increases, lemma_pow2_unfold, pow2};
use crate::value::{DynModel, DynValue, copy_bytes, copy_text, dyn_model};

verus! {

/// Lower bound of the milliseconds-since-epoch window (2001-09-09).
pub const MILLIS_LOW: i64 = 1_000_000_000_000;

/// Upper bound, exclusive, of the milliseconds-since-epoch window (2100-01-01).
pub const MILLIS_HIGH: i64 = 4_102_444_800_000;

/// Lower bound of the seconds-since-epoch window.
pub const SECONDS_LOW: i64 = 1_000_000_000;

/// Upper bound, exclusive, of the seconds-since-epoch window.
pub const SECONDS_HIGH: i64 = 4_102_444_800;

/// A value that the write path can bind to a statement parameter.
///
/// Floats are held as their IEEE-754 bit patterns; a timestamp as whole
/// seconds since the epoch and a sub-second nanosecond part.
#[derive(Debug, PartialEq)]
pub enum Encodable {
    Null,
    Boolean(bool),
    Int32(i32),
    Int64(i64),
    Float32(u32),
    Float64(u64),
    Text(String),
    Blob(Vec<u8>),
    Timestamp { seconds: i64, nanoseconds: u32 },
    List(Vec<Encodable>),
    SetOf(Vec<Encodable>),
    /// Entries in the mapping's order. A key given twice stays twice here;
    /// binding the map keeps the later entry, as a map insert does.
    TextMap(Vec<(String, String)>),
    /// Entries in the mapping's order, repeated keys as for `TextMap`.
    IntMap(Vec<(String, i64)>),
}

/// The mathematical model of an [`Encodable`].
pub enum EncModel {
    Null,
    Boolean(bool),
    Int32(i32),
    Int64(i64),
    Float32(u32),
    Float64(u64),
    Text(Seq<char>),
    Blob(Seq<u8>),
    Timestamp { seconds: i64, nanoseconds: u32 },
    List(Seq<EncModel>),
    SetOf(Seq<EncModel>),
    TextMap(Seq<(Seq<char>, Seq<char>)>),
    IntMap(Seq<(Seq<char>, i64)>),
}

pub open spec fn enc_model(e: Encodable) -> EncModel
    decreases e,
{
    match e {
        Encodable::Null => EncModel::Null,
        Encodable::Boolean(b) => EncModel::Boolean(b),
        Encodable::Int32(i) => EncModel::Int32(i),
        Encodable::Int64(i) => EncModel::Int64(i),
        Encodable::Float32(f) => EncModel::Float32(f),
        Encodable::Float64(f) => EncModel::Float64(f),
        Encodable::Text(s) => EncModel::Text(s@),
        Encodable::Blob(b) => EncModel::Blob(b@),
        Encodable::Timestamp { seconds, nanoseconds } => EncModel::Timestamp { seconds, nanoseconds },
        Encodable::List(items) => EncModel::List(
            Seq::new(
                items.len() as nat,
                |i: int|
                    if 0 <= i < items.len() {
                        enc_model(items[i])
                    } else {
                        EncModel::Null
                    },
            ),
        ),
        Encodable::SetOf(items) => EncModel::SetOf(
            Seq::new(
                items.len() as nat,
                |i: int|
                    if 0 <= i < items.len() {
                        enc_model(items[i])
                    } else {
                        EncModel::Null
                    },
            ),
        ),
        Encodable::TextMap(entries) => EncModel::TextMap(
            entries@.map_values(|e: (String, String)| (e.0@, e.1@)),
        ),
        Encodable::IntMap(entries) => EncModel::IntMap(
            entries@.map_values(|e: (String, i64)| (e.0@, e.1)),
        ),
    }
}

impl View for Encodable {
    type V = EncModel;

    open spec fn view(&self) -> EncModel {
        enc_model(*self)
    }
}

/// Why a dynamic value could not be encoded.
#[derive(Debug, Clone, PartialEq)]
pub enum EncodeError {
    /// No probe matched; carries the name of the offending host type.
    UnsupportedType(String),
    /// A parameter mapping had a key that is not text.
    KeyNotText,
}

/// Whether an integer lies in one of the two epoch windows.
pub open spec fn in_epoch_window(i: i64) -> bool {
    (MILLIS_LOW <= i < MILLIS_HIGH) || (SECONDS_LOW <= i < SECONDS_HIGH)
}

/// What an integer is encoded as: a 32-bit integer when it fits, else a
/// timestamp when it lies in an epoch window, else a 64-bit integer.
pub open spec fn int_encoded(i: i64) -> EncModel {
    if i32::MIN <= i <= i32::MAX {
        EncModel::Int32(i as i32)
    } else if MILLIS_LOW <= i < MILLIS_HIGH {
        EncModel::Timestamp { seconds: (i / 1000) as i64, nanoseconds: ((i % 1000) * 1_000_000) as u32 }
    } else if SECONDS_LOW <= i < SECONDS_HIGH {
        EncModel::Timestamp { seconds: i, nanoseconds: 0 }
    } else {
        EncModel::Int64(i)
    }
}

/// The bit pattern of the 64-bit float `4_102_444_800.0` (2100-01-01 in
/// seconds since the epoch).
pub const FLOAT_WINDOW_LIMIT_BITS: u64 = 4_750_893_857_938_341_888;

/// `2^52`, the unit of the exponent field in a 64-bit float's bit pattern.
pub const EXPONENT_UNIT: u64 = 4_503_599_627_370_496;

/// Whether the float with bit pattern `bits` is positive and below
/// `4_102_444_800.0`. For a clear sign bit the IEEE-754 order of values is
/// the order of bit patterns, and every pattern from the limit up (negative
/// values and NaN included) lies outside, so this is a test on the bits.
pub open spec fn float_in_window(bits: u64) -> bool {
    0 < bits < FLOAT_WINDOW_LIMIT_BITS
}

/// The integer significand of a finite float: the value is
/// `float_significand(bits) / 2^float_shift(bits)` for a clear sign bit.
pub open spec fn float_significand(bits: u64) -> nat {
    if bits / EXPONENT_UNIT == 0 {
        (bits % EXPONENT_UNIT) as nat
    } else {
        (bits % EXPONENT_UNIT + EXPONENT_UNIT) as nat
    }
}

pub open spec fn float_shift(bits: u64) -> nat {
    if bits / EXPONENT_UNIT == 0 {
        1074
    } else {
        (1075 - bits / EXPONENT_UNIT) as nat
    }
}

/// The number of binary digits of `n`; 0 for 0.
pub open spec fn bit_len(n: nat) -> nat
    decreases n,
{
    if n == 0 {
        0
    } else {
        1 + bit_len(n / 2)
    }
}

/// `n` rounded to 53 significant bits, ties to even: the nearest value a
/// 64-bit float holds, up to a power-of-two scale.
pub open spec fn round_to_f64(n: nat) -> nat {
    if bit_len(n) <= 53 {
        n
    } else {
        let p = pow2((bit_len(n) - 53) as nat);
        let q = n / p;
        let r = n % p;
        let up = r > p / 2 || (r == p / 2 && q % 2 == 1);
        (if up {
            q + 1
        } else {
            q
        }) * p
    }
}

/// The timestamp that a float of seconds since the epoch stands for: its
/// integer part as seconds; as nanoseconds, its fractional part times 10^9,
/// rounded to the nearest 64-bit float as a float product is, then
/// truncated. The fraction is `(m % d) / d` exactly, and scaling by the
/// power of two `d` commutes with rounding to 53 significant bits. (Products
/// below the smallest normal float would round coarser, but they truncate
/// to 0 either way.)
pub open spec fn float_timestamp(bits: u64) -> EncModel {
    let m = float_significand(bits);
    let d = pow2(float_shift(bits));
    EncModel::Timestamp {
        seconds: (m / d) as i64,
        nanoseconds: (round_to_f64((m % d) * 1_000_000_000) / d) as u32,
    }
}

/// What a 64-bit float is encoded as: a timestamp when it is positive and
/// below `4_102_444_800.0`, else a 64-bit float.
pub open spec fn float64_encoded(bits: u64) -> EncModel {
    if float_in_window(bits) {
        float_timestamp(bits)
    } else {
        EncModel::Float64(bits)
    }
}

/// An entry that fits a text-to-text map.
pub open spec fn text_entry(e: (DynModel, DynModel)) -> bool {
    e.0 is Text && e.1 is Text
}

/// An entry that fits a text-to-integer map; a boolean counts as 0 or 1.
pub open spec fn int_entry(e: (DynModel, DynModel)) -> bool {
    e.0 is Text && (e.1 is Int || e.1 is Bool)
}

pub open spec fn int_of(d: DynModel) -> i64 {
    match d {
        DynModel::Int(i) => i,
        DynModel::Bool(b) => if b { 1 } else { 0 },
        _ => 0,
    }
}

pub open spec fn all_text(es: Seq<(DynModel, DynModel)>) -> bool {
    forall|i: int| 0 <= i < es.len() ==> #[trigger] text_entry(es[i])
}

pub open spec fn all_int(es: Seq<(DynModel, DynModel)>) -> bool {
    forall|i: int| 0 <= i < es.len() ==> #[trigger] int_entry(es[i])
}

/// What a mapping is encoded as: a text map when it is non-empty and all
/// text, else an integer map when it is non-empty and all integers, else an
/// empty text map.
pub open spec fn dict_encoded(es: Seq<(DynModel, DynModel)>) -> EncModel {
    if es.len() > 0 && all_text(es) {
        EncModel::TextMap(es.map_values(|e: (DynModel, DynModel)| (e.0->Text_0, e.1->Text_0)))
    } else if es.len() > 0 && all_int(es) {
        EncModel::IntMap(es.map_values(|e: (DynModel, DynModel)| (e.0->Text_0, int_of(e.1))))
    } else {
        EncModel::TextMap(Seq::empty())
    }
}

/// The elements of a sequence encoded in order; the first failure fails all.
pub open spec fn encoded_list(items: Seq<DynModel>) -> Result<Seq<EncModel>, Seq<char>>
    decreases items,
{
    if items.len() == 0 {
        Ok(Seq::empty())
    } else {
        match encoded_list(items.subrange(0, items.len() - 1)) {
            Err(n) => Err(n),
            Ok(s) => match encoded(items[items.len() - 1]) {
                Ok(x) => Ok(s.push(x)),
                Err(n) => Err(n),
            },
        }
    }
}

/// What `encode` produces for a dynamic value, or the name of the host type
/// that no probe accepts.
pub open spec fn encoded(d: DynModel) -> Result<EncModel, Seq<char>>
    decreases d,
{
    match d {
        DynModel::Null => Ok(EncModel::Null),
        DynModel::Bool(b) => Ok(EncModel::Boolean(b)),
        DynModel::Int(i) => Ok(int_encoded(i)),
        DynModel::Float32(f) => Ok(EncModel::Float32(f)),
        DynModel::Float64(f) => Ok(float64_encoded(f)),
        DynModel::Text(s) => Ok(EncModel::Text(s)),
        DynModel::Bytes(b) => Ok(EncModel::Blob(b)),
        DynModel::List(items) => match encoded_list(items) {
            Ok(s) => Ok(EncModel::List(s)),
            Err(n) => Err(n),
        },
        DynModel::Dict(entries) => Ok(dict_encoded(entries)),
        DynModel::Other(name) => Err(name),
    }
}

/// An error of the list prefix carries over to the whole list.
proof fn lemma_list_error_extends(s: Seq<DynModel>, k: int)
    requires
        0 <= k <= s.len(),
        encoded_list(s.subrange(0, k)) is Err,
    ensures
        encoded_list(s) == encoded_list(s.subrange(0, k)),
    decreases s.len() - k,
{
    if k < s.len() {
        let t = s.subrange(0, k + 1);
        assert(t.subrange(0, k) =~= s.subrange(0, k));
        lemma_list_error_extends(s, k + 1);
    } else {
        assert(s.subrange(0, k) =~= s);
    }
}

/// Encodes an integer: a 32-bit integer when it fits, else a timestamp when
/// it lies in an epoch window, else a 64-bit integer.
pub fn encode_int(i: i64) -> (r: Encodable)
    ensures
        r@ == int_encoded(i),
{
    if i32::MIN as i64 <= i && i <= i32::MAX as i64 {
        Encodable::Int32(i as i32)
    } else if MILLIS_LOW <= i && i < MILLIS_HIGH {
        let u = i as u64;
        Encodable::Timestamp { seconds: (u / 1000) as i64, nanoseconds: ((u % 1000) * 1_000_000) as u32 }
    } else if SECONDS_LOW <= i && i < SECONDS_HIGH {
        Encodable::Timestamp { seconds: i, nanoseconds: 0 }
    } else {
        Encodable::Int64(i)
    }
}

fn encode_seq(items: &Vec<DynValue>) -> (r: Result<Vec<Encodable>, EncodeError>)
    ensures
        match (r, encoded_list(Seq::new(items.len() as nat, |i: int| items[i]@))) {
            (Ok(out), Ok(s)) => out.len() == s.len() && forall|i: int|
                0 <= i < s.len() ==> (#[trigger] out[i])@ == s[i],
            (Err(EncodeError::UnsupportedType(n)), Err(m)) => n@ == m,
            _ => false,
        },
    decreases items,
{
    let ghost es = Seq::new(items.len() as nat, |i: int| items[i]@);
    let mut out: Vec<Encodable> = Vec::new();
    let mut i: usize = 0;
    assert(es.subrange(0, 0) =~= Seq::<DynModel>::empty());
    while i < items.len()
        invariant
            i <= items.len(),
            es == Seq::new(items.len() as nat, |i: int| items[i]@),
            encoded_list(es.subrange(0, i as int)) is Ok,
            out.len() == i,
            out.len() == encoded_list(es.subrange(0, i as int))->Ok_0.len(),
            forall|j: int|
                0 <= j < i ==> (#[trigger] out[j])@ == encoded_list(es.subrange(0, i as int))->Ok_0[j],
        decreases items.len() - i,
    {
        let ghost prev = encoded_list(es.subrange(0, i as int))->Ok_0;
        assert(es.subrange(0, i + 1).subrange(0, i as int) =~= es.subrange(0, i as int));
        assert(es.subrange(0, i + 1)[i as int] == items[i as int]@);
        match encode(&items[i]) {
            Ok(x) => {
                out.push(x);
                assert(encoded_list(es.subrange(0, i + 1)) == Ok::<Seq<EncModel>, Seq<char>>(prev.push(x@)));
            },
            Err(e) => {
                proof {
                    lemma_list_error_extends(es, i + 1);
                }
                return Err(e);
            },
        }
        i = i + 1;
    }
    assert(es.subrange(0, i as int) =~= es);
    Ok(out)
}

proof fn lemma_bit_len_bound(n: nat, k: nat)
    requires
        n < pow2(k),
    ensures
        bit_len(n) <= k,
    decreases k,
{
    if n > 0 {
        if k == 0 {
            vstd::arithmetic::power2::lemma2_to64();
        } else {
            lemma_pow2_unfold(k);
            lemma_bit_len_bound(n / 2, (k - 1) as nat);
        }
    }
}

/// Rounds `n` to 53 significant bits, ties to even, as a 64-bit float
/// product does.
fn round_significant(n: u128) -> (r: u128)
    requires
        n < 0x800000000000000000000,
    ensures
        r == round_to_f64(n as nat),
        r <= n + 0x40000000,
{
    let mut x = n;
    let mut b: u32 = 0;
    proof {
        lemma2_to64();
        lemma_pow2_adds(64, 19);
        assert(pow2(83) == 0x800000000000000000000nat);
        lemma_bit_len_bound(n as nat, 83);
    }
    while x > 0
        invariant
            bit_len(n as nat) == b + bit_len(x as nat),
            bit_len(n as nat) <= 83,
        decreases x,
    {
        x = x / 2;
        b = b + 1;
    }
    if b <= 53 {
        return n;
    }
    let s = b - 53;
    let mut p: u128 = 1;
    let mut k: u32 = 0;
    while k < s
        invariant
            k <= s,
            s <= 30,
            p == pow2(k as nat),
            pow2(30) == 0x40000000nat,
        decreases s - k,
    {
        proof {
            lemma_pow2_unfold((k + 1) as nat);
            lemma_pow2_strictly_increases((k + 1) as nat, 31);
            lemma2_to64();
        }
        p = p * 2;
        k = k + 1;
    }
    proof {
        vstd::arithmetic::power2::lemma_pow2_pos(s as nat);
        if s < 30 {
            lemma_pow2_strictly_increases(s as nat, 30);
        }
        vstd::arithmetic::div_mod::lemma_fundamental_div_mod(n as int, p as int);
        lemma_mod_pos_bound(n as int, p as int);
    }
    let q = n / p;
    let rem = n % p;
    let up = rem > p / 2 || (rem == p / 2 && q % 2 == 1);
    let q2 = if up { q + 1 } else { q };
    assert(q2 * p <= n + p) by (nonlinear_arith)
        requires
            n == p * q + rem,
            0 <= rem,
            q2 <= q + 1,
            p > 0,
    ;
    q2 * p
}

/// Encodes a 64-bit float given by its bit pattern: a timestamp when it is
/// positive and below `4_102_444_800.0`, else a 64-bit float.
pub fn encode_float64(bits: u64) -> (r: Encodable)
    ensures
        r@ == float64_encoded(bits),
{
    if !(0 < bits && bits < FLOAT_WINDOW_LIMIT_BITS) {
        return Encodable::Float64(bits);
    }
    let e = bits / EXPONENT_UNIT;
    let m: u128 = if e == 0 {
        (bits % EXPONENT_UNIT) as u128
    } else {
        (bits % EXPONENT_UNIT + EXPONENT_UNIT) as u128
    };
    let shift: u32 = if e == 0 {
        1074
    } else {
        (1075 - e) as u32
    };
    proof {
        lemma2_to64();
        lemma_pow2_adds(64, 20);
        assert(pow2(84) == 0x1000000000000000000000nat);
        assert(m == float_significand(bits));
        assert(shift == float_shift(bits));
        assert(m < 0x20000000000000);
        assert(m * 1_000_000_000 < 0x1000000000000000000000) by (nonlinear_arith)
            requires m < 0x20000000000000;
    }
    if shift >= 84 {
        let rounded = round_significant(m * 1_000_000_000);
        proof {
            if shift > 84 {
                lemma_pow2_strictly_increases(84, shift as nat);
            }
            let d = pow2(shift as nat);
            lemma_basic_div(m as int, d as int);
            lemma_small_mod(m as nat, d);
            lemma_basic_div(rounded as int, d as int);
        }
        return Encodable::Timestamp { seconds: 0, nanoseconds: 0 };
    }
    let mut d: u128 = 1;
    let mut k: u32 = 0;
    while k < shift
        invariant
            k <= shift,
            shift < 84,
            d == pow2(k as nat),
            pow2(84) == 0x1000000000000000000000nat,
        decreases shift - k,
    {
        proof {
            lemma_pow2_unfold((k + 1) as nat);
            lemma_pow2_strictly_increases((k + 1) as nat, 84);
        }
        d = d * 2;
        k = k + 1;
    }
    proof {
        vstd::arithmetic::power2::lemma_pow2_pos(shift as nat);
        lemma_mod_pos_bound(m as int, d as int);
        lemma_pow2_strictly_increases(shift as nat, 84);
    }
    let rest = m % d;
    assert(rest * 1_000_000_000 < 0x1000000000000000000000 * 1_000_000_000) by (nonlinear_arith)
        requires rest < d, d < 0x1000000000000000000000;
    let scaled = rest * 1_000_000_000;
    proof {
        vstd::arithmetic::div_mod::lemma_mod_decreases(m as nat, d as nat);
        assert(scaled < d * 1_000_000_000) by (nonlinear_arith)
            requires scaled == rest * 1_000_000_000, rest < d;
        assert(scaled < 0x800000000000000000000) by (nonlinear_arith)
            requires scaled == rest * 1_000_000_000, rest <= m, m < 0x20000000000000;
    }
    let rounded = round_significant(scaled);
    proof {
        assert(rounded < d * 0x100000000) by (nonlinear_arith)
            requires rounded <= scaled + 0x40000000, scaled < d * 1_000_000_000, d >= 1;
        lemma_multiply_divide_lt(rounded as int, d as int, 0x100000000);
        vstd::arithmetic::div_mod::lemma_div_is_ordered(0, m as int, d as int);
        vstd::arithmetic::div_mod::lemma_div_is_ordered_by_denominator(m as int, 1, d as int);
    }
    let seconds = m / d;
    let nanoseconds = rounded / d;
    Encodable::Timestamp { seconds: seconds as i64, nanoseconds: nanoseconds as u32 }
}

/// Encodes a dynamic value by probing, in this order: null, boolean,
/// integer, 32-bit float, 64-bit float, text, bytes, sequence, mapping.
pub fn encode(v: &DynValue) -> (r: Result<Encodable, EncodeError>)
    ensures
        match (r, encoded(v@)) {
            (Ok(x), Ok(m)) => x@ == m,
            (Err(EncodeError::UnsupportedType(n)), Err(m)) => n@ == m,
            _ => false,
        },
    decreases v,
{
    match v {
        DynValue::Null => Ok(Encodable::Null),
        DynValue::Bool(b) => Ok(Encodable::Boolean(*b)),
        DynValue::Int(i) => Ok(encode_int(*i)),
        DynValue::Float32(f) => Ok(Encodable::Float32(*f)),
        DynValue::Float64(f) => Ok(encode_float64(*f)),
        DynValue::Text(s) => Ok(Encodable::Text(copy_text(s))),
        DynValue::Bytes(b) => Ok(Encodable::Blob(copy_bytes(b))),
        DynValue::List(items) => {
            let ghost es = Seq::new(items.len() as nat, |i: int| items[i]@);
            assert(v@ == DynModel::List(es)) by {
                if let DynModel::List(t) = v@ {
                    assert(t =~= es);
                }
            }
            match encode_seq(items) {
                Ok(out) => {
                    let r = Encodable::List(out);
                    assert(r@ == encoded(v@)->Ok_0) by {
                        if let EncModel::List(t) = r@ {
                            assert(t =~= encoded_list(es)->Ok_0);
                        }
                    }
                    Ok(r)
                },
                Err(e) => Err(e),
            }
        },
        DynValue::Dict(entries) => {
            let ghost es = Seq::new(entries.len() as nat, |i: int| (entries[i].0@, entries[i].1@));
            assert(v@ == DynModel::Dict(es)) by {
                if let DynModel::Dict(t) = v@ {
                    assert(t =~= es);
                }
            }
            Ok(encode_dict(entries))
        },
        DynValue::Other(name) => Err(EncodeError::UnsupportedType(copy_text(name))),
    }
}

fn encode_dict(entries: &Vec<(DynValue, DynValue)>) -> (r: Encodable)
    ensures
        r@ == dict_encoded(Seq::new(entries.len() as nat, |i: int| (entries[i].0@, entries[i].1@))),
{
    let ghost es = Seq::new(entries.len() as nat, |i: int| (entries[i].0@, entries[i].1@));
    let mut text_out: Vec<(String, String)> = Vec::new();
    let mut int_out: Vec<(String, i64)> = Vec::new();
    let mut is_text = true;
    let mut is_int = true;
    let mut i: usize = 0;
    while i < entries.len() && (is_text || is_int)
        invariant
            i <= entries.len(),
            es == Seq::new(entries.len() as nat, |i: int| (entries[i].0@, entries[i].1@)),
            is_text == (forall|j: int| 0 <= j < i ==> #[trigger] text_entry(es[j])),
            is_int == (forall|j: int| 0 <= j < i ==> #[trigger] int_entry(es[j])),
            is_text ==> text_out.len() == i,
            is_text ==> forall|j: int|
                0 <= j < i ==> (#[trigger] text_out[j]).0@ == es[j].0->Text_0 && text_out[j].1@
                    == es[j].1->Text_0,
            is_int ==> int_out.len() == i,
            is_int ==> forall|j: int|
                0 <= j < i ==> (#[trigger] int_out[j]).0@ == es[j].0->Text_0 && int_out[j].1
                    == int_of(es[j].1),
        decreases entries.len() - i,
    {
        assert(es[i as int] == (entries[i as int].0@, entries[i as int].1@));
        match &entries[i].0 {
            DynValue::Text(k) => {
                if is_text {
                    match &entries[i].1 {
                        DynValue::Text(x) => {
                            text_out.push((copy_text(k), copy_text(x)));
                            assert(text_entry(es[i as int]));
                        },
                        _ => {
                            is_text = false;
                            assert(!text_entry(es[i as int]));
                        },
                    }
                }
                if is_int {
                    match &entries[i].1 {
                        DynValue::Int(n) => {
                            int_out.push((copy_text(k), *n));
                            assert(int_entry(es[i as int]));
                        },
                        DynValue::Bool(b) => {
                            int_out.push((copy_text(k), if *b { 1 } else { 0 }));
                            assert(int_entry(es[i as int]));
                        },
                        _ => {
                            is_int = false;
                            assert(!int_entry(es[i as int]));
                        },
                    }
                }
            },
            _ => {
                is_text = false;
                is_int = false;
                assert(!text_entry(es[i as int]) && !int_entry(es[i as int]));
            },
        }
        i = i + 1;
    }
    if is_text && entries.len() > 0 {
        let r = Encodable::TextMap(text_out);
        assert(r@ == dict_encoded(es)) by {
            if let EncModel::TextMap(t) = r@ {
                assert(t =~= es.map_values(|e: (DynModel, DynModel)| (e.0->Text_0, e.1->Text_0)));
            }
        }
        r
    } else if is_int && entries.len() > 0 {
        let r = Encodable::IntMap(int_out);
        assert(r@ == dict_encoded(es)) by {
            if let EncModel::IntMap(t) = r@ {
                assert(t =~= es.map_values(|e: (DynModel, DynModel)| (e.0->Text_0, int_of(e.1))));
            }
        }
        r
    } else {
        let r = Encodable::TextMap(Vec::new());
        assert(r@ == dict_encoded(es)) by {
            if let EncModel::TextMap(t) = r@ {
                assert(t =~= Seq::<(Seq<char>, Seq<char>)>::empty());
            }
        }
        r
    }
}

} // verus!
