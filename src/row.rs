//! A positional snapshot of one result row.
use vstd::prelude::*;
use vstd::string::StringExecFns;
use crate::decode::{decode_opt, decoded_opt};
use crate::value::{CqlModel, CqlValue, DynModel, DynValue, copy_opt, opt_model};

verus! {

pub open spec fn digit_char(d: nat) -> char {
    if d == 0 { '0' }
    else if d == 1 { '1' }
    else if d == 2 { '2' }
    else if d == 3 { '3' }
    else if d == 4 { '4' }
    else if d == 5 { '5' }
    else if d == 6 { '6' }
    else if d == 7 { '7' }
    else if d == 8 { '8' }
    else { '9' }
}

/// The decimal digits of `n`, most significant first.
pub open spec fn decimal(n: nat) -> Seq<char>
    decreases n,
{
    if n < 10 {
        seq![digit_char(n)]
    } else {
        decimal(n / 10).push(digit_char(n % 10))
    }
}

/// The synthetic key of column `i`: `col_` followed by `i` in decimal.
pub open spec fn col_label(i: nat) -> Seq<char> {
    seq!['c', 'o', 'l', '_'] + decimal(i)
}

/// The one-character text of a decimal digit.
fn digit_text(d: usize) -> (r: &'static str)
    requires
        d < 10,
    ensures
        r@ == seq![digit_char(d as nat)],
{
    proof {
        reveal_strlit("0");
        reveal_strlit("1");
        reveal_strlit("2");
        reveal_strlit("3");
        reveal_strlit("4");
        reveal_strlit("5");
        reveal_strlit("6");
        reveal_strlit("7");
        reveal_strlit("8");
        reveal_strlit("9");
    }
    if d == 0 {
        "0"
    } else if d == 1 {
        "1"
    } else if d == 2 {
        "2"
    } else if d == 3 {
        "3"
    } else if d == 4 {
        "4"
    } else if d == 5 {
        "5"
    } else if d == 6 {
        "6"
    } else if d == 7 {
        "7"
    } else if d == 8 {
        "8"
    } else {
        "9"
    }
}

/// The decimal digits of `i`, most significant first.
pub fn decimal_text(i: usize) -> (r: String)
    ensures
        r@ == decimal(i as nat),
{
    let mut n = i;
    let mut acc = String::from_str("");
    proof {
        reveal_strlit("");
        assert(decimal(i as nat) =~= decimal(n as nat) + acc@);
    }
    while n >= 10
        invariant
            decimal(i as nat) == decimal(n as nat) + acc@,
        decreases n,
    {
        let digit = digit_text(n % 10);
        let next = String::from_str(digit).concat(acc.as_str());
        proof {
            assert(decimal(n as nat) == decimal((n / 10) as nat).push(digit_char((n % 10) as nat)));
            assert(decimal(i as nat) =~= decimal((n / 10) as nat) + next@);
        }
        acc = next;
        n = n / 10;
    }
    let r = String::from_str(digit_text(n)).concat(acc.as_str());
    proof {
        assert(decimal(n as nat) == seq![digit_char(n as nat)]);
        assert(r@ =~= decimal(i as nat));
    }
    r
}

/// The synthetic key of column `i`.
fn column_label(i: usize) -> (r: String)
    ensures
        r@ == col_label(i as nat),
{
    let digits = decimal_text(i);
    let r = String::from_str("col_").concat(digits.as_str());
    proof {
        reveal_strlit("col_");
        assert(r@ =~= col_label(i as nat));
    }
    r
}

/// The model of a row: its optional values, in column order.
pub type RowModel = Seq<Option<CqlModel>>;

/// The dictionary rendering of a row, keyed by synthetic column labels.
pub open spec fn row_dict(row: RowModel) -> DynModel {
    DynModel::Dict(
        Seq::new(row.len(), |i: int| (DynModel::Text(col_label(i as nat)), decoded_opt(row[i]))),
    )
}

/// The column that a possibly negative index designates: a negative index
/// counts from the end.
pub open spec fn resolved_index(len: int, index: int) -> int {
    if index < 0 {
        len + index
    } else {
        index
    }
}

/// What access by a possibly negative index gives: the decoded column it
/// designates, or nothing when it designates none.
pub open spec fn column_at(row: RowModel, index: int) -> Option<DynModel> {
    let k = resolved_index(row.len() as int, index);
    if 0 <= k < row.len() {
        Some(decoded_opt(row[k]))
    } else {
        None
    }
}

/// A positional column access that fell outside the row.
#[derive(Debug, Clone, PartialEq)]
pub enum RowError {
    /// Carries the index as the caller gave it.
    IndexOutOfRange(i128),
}

/// One result row: a fixed-length sequence of optional values.
#[derive(Debug, PartialEq)]
pub struct Row {
    columns: Vec<Option<CqlValue>>,
}

impl View for Row {
    type V = RowModel;

    closed spec fn view(&self) -> RowModel {
        self.columns@.map_values(|o: Option<CqlValue>| opt_model(o))
    }
}

impl Row {
    /// A row holding the given column values.
    pub fn new(columns: Vec<Option<CqlValue>>) -> (r: Row)
        ensures
            r@ == columns@.map_values(|o: Option<CqlValue>| opt_model(o)),
    {
        Row { columns }
    }

    /// The number of columns.
    pub fn len(&self) -> (r: usize)
        ensures
            r == self@.len(),
    {
        self.columns.len()
    }

    /// A deep copy with the same model.
    pub fn copy(&self) -> (r: Row)
        ensures
            r@ == self@,
    {
        let mut out: Vec<Option<CqlValue>> = Vec::new();
        let mut i: usize = 0;
        while i < self.columns.len()
            invariant
                i <= self.columns.len(),
                out.len() == i,
                forall|j: int| 0 <= j < i ==> opt_model(#[trigger] out[j]) == opt_model(self.columns[j]),
            decreases self.columns.len() - i,
        {
            out.push(copy_opt(&self.columns[i]));
            i = i + 1;
        }
        let r = Row { columns: out };
        assert(r@ =~= self@);
        r
    }

    /// Every column decoded, in order; an absent column is the null marker.
    pub fn columns(&self) -> (r: Vec<DynValue>)
        ensures
            r.len() == self@.len(),
            forall|i: int| 0 <= i < r.len() ==> (#[trigger] r[i])@ == decoded_opt(self@[i]),
    {
        let mut out: Vec<DynValue> = Vec::new();
        let mut i: usize = 0;
        while i < self.columns.len()
            invariant
                i <= self.columns.len(),
                out.len() == i,
                forall|j: int| 0 <= j < i ==> (#[trigger] out[j])@ == decoded_opt(self@[j]),
            decreases self.columns.len() - i,
        {
            out.push(decode_opt(&self.columns[i]));
            i = i + 1;
        }
        out
    }

    /// The row as a mapping from `col_<i>` to the decoded value of column `i`.
    pub fn as_dict(&self) -> (r: DynValue)
        ensures
            r@ == row_dict(self@),
    {
        let mut out: Vec<(DynValue, DynValue)> = Vec::new();
        let mut i: usize = 0;
        while i < self.columns.len()
            invariant
                i <= self.columns.len(),
                out.len() == i,
                forall|j: int|
                    0 <= j < i ==> (#[trigger] out[j]).0@ == DynModel::Text(col_label(j as nat))
                        && out[j].1@ == decoded_opt(self@[j]),
            decreases self.columns.len() - i,
        {
            let k = DynValue::Text(column_label(i));
            out.push((k, decode_opt(&self.columns[i])));
            i = i + 1;
        }
        let r = DynValue::Dict(out);
        assert(r@ == row_dict(self@)) by {
            if let DynModel::Dict(a) = r@ {
                if let DynModel::Dict(b) = row_dict(self@) {
                    assert(a =~= b);
                }
            }
        }
        r
    }

    /// The decoded value of column `index`.
    pub fn get(&self, index: usize) -> (r: Result<DynValue, RowError>)
        ensures
            index < self@.len() <==> r is Ok,
            r matches Ok(v) ==> v@ == decoded_opt(self@[index as int]),
            r matches Ok(v) ==> column_at(self@, index as int) == Some(v@),
            r matches Err(RowError::IndexOutOfRange(i)) ==> i == index,
    {
        if index < self.columns.len() {
            Ok(decode_opt(&self.columns[index]))
        } else {
            Err(RowError::IndexOutOfRange(index as i128))
        }
    }

    /// The decoded value of column `index`, where a negative index counts
    /// from the end (`-1` is the last column).
    pub fn get_item(&self, index: isize) -> (r: Result<DynValue, RowError>)
        ensures
            (0 <= resolved_index(self@.len() as int, index as int) < self@.len()) <==> r is Ok,
            r is Ok <==> column_at(self@, index as int) is Some,
            r matches Ok(v) ==> column_at(self@, index as int) == Some(v@),
            r matches Ok(v) ==> v@ == decoded_opt(self@[resolved_index(self@.len() as int, index as int)]),
            r matches Err(RowError::IndexOutOfRange(i)) ==> i == index,
    {
        let len = self.columns.len();
        if index < 0 {
            let back = (0 - (index as i128)) as u128;
            if back <= len as u128 {
                let idx = len - back as usize;
                if idx < len {
                    return Ok(decode_opt(&self.columns[idx]));
                }
            }
            Err(RowError::IndexOutOfRange(index as i128))
        } else if (index as usize) < len {
            Ok(decode_opt(&self.columns[index as usize]))
        } else {
            Err(RowError::IndexOutOfRange(index as i128))
        }
    }
}

} // verus!
