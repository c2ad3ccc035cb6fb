//! Laws that relate the library's operations, proved over their models.
use vstd::prelude::*;
use crate::encode::{
    EncModel, all_int, all_text, dict_encoded, encoded, in_epoch_window, int_encoded, int_entry,
    text_entry,
};
use crate::result::{ResultModel, rows_of, stepped, streamed};
use crate::decode::decoded_opt;
use crate::row::{RowModel, column_at, resolved_index};
use crate::value::DynModel;

verus! {

/// For a non-empty row of length `L`, index `-1` gives what index `L - 1`
/// gives, the last column decoded, and index `-L - 1` gives no column.
pub proof fn law_negative_index(row: RowModel)
    requires
        row.len() > 0,
    ensures
        column_at(row, -1) == column_at(row, row.len() - 1),
        column_at(row, -1) == Some(decoded_opt(row[row.len() - 1])),
        column_at(row, -(row.len() as int) - 1) is None,
        resolved_index(row.len() as int, -1) == row.len() - 1,
{
}

/// For any row, of length `L` (zero included), index `-L - 1` designates no
/// column: a negative index never wraps around.
pub proof fn law_negative_index_out_of_range(row: RowModel)
    ensures
        column_at(row, -(row.len() as int) - 1) is None,
{
}

/// The state after `k` streaming steps from `m`.
pub open spec fn advanced(m: ResultModel, k: nat) -> ResultModel
    decreases k,
{
    if k == 0 {
        m
    } else {
        advanced(stepped(m).0, (k - 1) as nat)
    }
}

proof fn lemma_stream_from(m: ResultModel)
    requires
        m.position <= rows_of(m).len(),
    ensures
        streamed(m, (rows_of(m).len() - m.position) as nat) == rows_of(m).subrange(
            m.position as int,
            rows_of(m).len() as int,
        ).map_values(|r: RowModel| Some(r)),
        advanced(m, (rows_of(m).len() - m.position) as nat).position == rows_of(m).len(),
        rows_of(advanced(m, (rows_of(m).len() - m.position) as nat)) == rows_of(m),
    decreases rows_of(m).len() - m.position,
{
    let n = rows_of(m).len();
    if m.position < n {
        let next = stepped(m).0;
        assert(rows_of(next) == rows_of(m));
        lemma_stream_from(next);
        let k = (n - m.position) as nat;
        assert(streamed(m, k) == seq![stepped(m).1] + streamed(next, (k - 1) as nat));
        assert(streamed(m, k) =~= rows_of(m).subrange(m.position as int, n as int).map_values(
            |r: RowModel| Some(r),
        ));
    } else {
        assert(rows_of(m).subrange(m.position as int, n as int).map_values(|r: RowModel| Some(r))
            =~= Seq::<Option<RowModel>>::empty());
    }
}

/// Streaming over a fresh cursor with `N` rows yields the `N` rows in result
/// order, and then signals exhaustion, again and again.
pub proof fn law_streaming_exhaustion(m: ResultModel)
    requires
        m.position == 0,
    ensures
        streamed(m, rows_of(m).len()) == rows_of(m).map_values(|r: RowModel| Some(r)),
        stepped(advanced(m, rows_of(m).len())).1 is None,
        stepped(advanced(m, rows_of(m).len())).0 == advanced(m, rows_of(m).len()),
        streamed(m, rows_of(m).len() + 1) == rows_of(m).map_values(|r: RowModel| Some(r)).push(
            None,
        ),
{
    lemma_stream_from(m);
    assert(rows_of(m).subrange(0, rows_of(m).len() as int) =~= rows_of(m));
    lemma_streamed_then(m, rows_of(m).len());
    let last = advanced(m, rows_of(m).len());
    assert(stepped(last).1 is None);
    assert(streamed(stepped(last).0, 0) =~= Seq::<Option<RowModel>>::empty());
    assert(streamed(last, 1) == seq![stepped(last).1] + streamed(stepped(last).0, 0));
    assert(streamed(last, 1) =~= seq![None::<RowModel>]);
    assert(streamed(m, rows_of(m).len() + 1) =~= rows_of(m).map_values(|r: RowModel| Some(r)).push(
        None,
    ));
}

/// `k + 1` steps yield what `k` steps yield, then one step from there.
proof fn lemma_streamed_then(m: ResultModel, k: nat)
    ensures
        streamed(m, k + 1) == streamed(m, k) + streamed(advanced(m, k), 1),
    decreases k,
{
    if k > 0 {
        lemma_streamed_then(stepped(m).0, (k - 1) as nat);
        assert(streamed(m, k + 1) == seq![stepped(m).1] + streamed(stepped(m).0, k));
        assert(streamed(m, k + 1) =~= streamed(m, k) + streamed(advanced(m, k), 1));
    } else {
        assert(streamed(m, 0) =~= Seq::<Option<RowModel>>::empty());
        assert(streamed(m, 1) =~= streamed(m, 0) + streamed(advanced(m, 0), 1));
    }
}

/// A boolean is encoded as a boolean, never as an integer.
pub proof fn law_boolean_probe_first(b: bool)
    ensures
        encoded(DynModel::Bool(b)) == Ok::<EncModel, Seq<char>>(EncModel::Boolean(b)),
{
}

/// An integer too wide for 32 bits is a timestamp exactly when it lies in
/// one of the two epoch windows; otherwise it stays a 64-bit integer.
pub proof fn law_timestamp_window(i: i64)
    requires
        i < i32::MIN || i > i32::MAX,
    ensures
        int_encoded(i) is Timestamp <==> in_epoch_window(i),
        !in_epoch_window(i) ==> int_encoded(i) == EncModel::Int64(i),
{
}

/// A mapping that fits neither a text map nor an integer map, as one whose
/// values mix text and integers, is encoded as an empty text map.
pub proof fn law_mixed_map_fallback(es: Seq<(DynModel, DynModel)>, i: int, j: int)
    requires
        0 <= i < es.len(),
        0 <= j < es.len(),
        !text_entry(es[i]),
        !int_entry(es[j]),
    ensures
        dict_encoded(es) == EncModel::TextMap(Seq::empty()),
{
    assert(!all_text(es));
    assert(!all_int(es));
}

} // verus!
