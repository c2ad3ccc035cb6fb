//! The result cursor: the decoded rows of one executed query, its
//! side-channel metadata, and a forward-only streaming position.
use vstd::prelude::*;
use crate::row::{Row, RowModel, row_dict};
use crate::value::{DynValue, copy_text};

verus! {

/// The structural descriptor of one result column, in textual form.
#[derive(Debug, Clone, PartialEq)]
pub struct ColumnSpec {
    pub table_spec: String,
    pub name: String,
    pub typ: String,
}

/// `single_row` found other than exactly one row.
#[derive(Debug, Clone, PartialEq)]
pub enum CardinalityError {
    NoRows,
    /// Carries the actual number of rows.
    TooManyRows(usize),
}

/// The model of a cursor. `rows` is `None` in the state where the driver
/// gave no rows result.
pub struct ResultModel {
    pub rows: Option<Seq<RowModel>>,
    pub tracing_id: Option<Seq<char>>,
    pub warnings: Seq<Seq<char>>,
    pub column_specs: Seq<(Seq<char>, Seq<char>, Seq<char>)>,
    pub position: nat,
}

/// The rows of a result, none in the state without a rows result.
pub open spec fn rows_of(m: ResultModel) -> Seq<RowModel> {
    match m.rows {
        Some(rows) => rows,
        None => Seq::empty(),
    }
}

/// One streaming step: the row at the position, which then advances, or
/// nothing once the position has reached the row count.
pub open spec fn stepped(m: ResultModel) -> (ResultModel, Option<RowModel>) {
    if m.position < rows_of(m).len() {
        (ResultModel { position: m.position + 1, ..m }, Some(rows_of(m)[m.position as int]))
    } else {
        (m, None)
    }
}

/// What `k` streaming steps from `m` yield, in order.
pub open spec fn streamed(m: ResultModel, k: nat) -> Seq<Option<RowModel>>
    decreases k,
{
    if k == 0 {
        Seq::empty()
    } else {
        seq![stepped(m).1] + streamed(stepped(m).0, (k - 1) as nat)
    }
}

pub struct QueryResult {
    rows: Option<Vec<Row>>,
    tracing_id: Option<String>,
    warnings: Vec<String>,
    column_specs: Vec<ColumnSpec>,
    position: usize,
}

impl View for QueryResult {
    type V = ResultModel;

    closed spec fn view(&self) -> ResultModel {
        ResultModel {
            rows: match self.rows {
                Some(rows) => Some(rows@.map_values(|r: Row| r@)),
                None => None,
            },
            tracing_id: match self.tracing_id {
                Some(t) => Some(t@),
                None => None,
            },
            warnings: self.warnings@.map_values(|w: String| w@),
            column_specs: self.column_specs@.map_values(
                |c: ColumnSpec| (c.table_spec@, c.name@, c.typ@),
            ),
            position: self.position as nat,
        }
    }
}

fn copy_texts(v: &Vec<String>) -> (r: Vec<String>)
    ensures
        r@.map_values(|w: String| w@) == v@.map_values(|w: String| w@),
{
    let mut out: Vec<String> = Vec::new();
    let mut i: usize = 0;
    while i < v.len()
        invariant
            i <= v.len(),
            out.len() == i,
            forall|j: int| 0 <= j < i ==> (#[trigger] out[j])@ == v[j]@,
        decreases v.len() - i,
    {
        out.push(copy_text(&v[i]));
        i = i + 1;
    }
    assert(out@.map_values(|w: String| w@) =~= v@.map_values(|w: String| w@));
    out
}

impl QueryResult {
    /// Well-formedness: the streaming position never passes the row count.
    pub closed spec fn wf(&self) -> bool {
        self@.position <= rows_of(self@).len()
    }

    /// A cursor over an executed query's rows (`None` when the driver gave
    /// no rows result), positioned before the first row.
    pub fn new(
        rows: Option<Vec<Row>>,
        tracing_id: Option<String>,
        warnings: Vec<String>,
        column_specs: Vec<ColumnSpec>,
    ) -> (r: QueryResult)
        ensures
            r.wf(),
            r@.rows == (match rows {
                Some(rs) => Some(rs@.map_values(|x: Row| x@)),
                None => None,
            }),
            r@.tracing_id == (match tracing_id {
                Some(t) => Some(t@),
                None => None,
            }),
            r@.warnings == warnings@.map_values(|w: String| w@),
            r@.column_specs == column_specs@.map_values(
                |c: ColumnSpec| (c.table_spec@, c.name@, c.typ@),
            ),
            r@.position == 0,
    {
        QueryResult { rows, tracing_id, warnings, column_specs, position: 0 }
    }

    /// The number of rows; 0 without a rows result.
    pub fn len(&self) -> (r: usize)
        ensures
            r == rows_of(self@).len(),
    {
        match &self.rows {
            Some(rows) => rows.len(),
            None => 0,
        }
    }

    /// Whether there is at least one row.
    pub fn is_truthy(&self) -> (r: bool)
        ensures
            r == (rows_of(self@).len() > 0),
    {
        self.len() > 0
    }

    /// Every row, in result order; none without a rows result.
    pub fn rows(&self) -> (r: Vec<Row>)
        ensures
            r@.map_values(|x: Row| x@) == rows_of(self@),
    {
        let mut out: Vec<Row> = Vec::new();
        match &self.rows {
            Some(rows) => {
                let mut i: usize = 0;
                while i < rows.len()
                    invariant
                        i <= rows.len(),
                        out.len() == i,
                        forall|j: int| 0 <= j < i ==> (#[trigger] out[j])@ == rows[j]@,
                    decreases rows.len() - i,
                {
                    out.push(rows[i].copy());
                    i = i + 1;
                }
                assert(out@.map_values(|x: Row| x@) =~= rows_of(self@));
            },
            None => {
                assert(out@.map_values(|x: Row| x@) =~= rows_of(self@));
            },
        }
        out
    }

    /// Every row in its dictionary rendering, in result order.
    pub fn rows_typed(&self) -> (r: Vec<DynValue>)
        ensures
            r.len() == rows_of(self@).len(),
            forall|i: int| 0 <= i < r.len() ==> (#[trigger] r[i])@ == row_dict(rows_of(self@)[i]),
    {
        let mut out: Vec<DynValue> = Vec::new();
        match &self.rows {
            Some(rows) => {
                let mut i: usize = 0;
                while i < rows.len()
                    invariant
                        i <= rows.len(),
                        rows_of(self@) == rows@.map_values(|x: Row| x@),
                        out.len() == i,
                        forall|j: int| 0 <= j < i ==> (#[trigger] out[j])@ == row_dict(rows[j]@),
                    decreases rows.len() - i,
                {
                    out.push(rows[i].as_dict());
                    i = i + 1;
                }
            },
            None => {},
        }
        out
    }

    /// The first row, if there is one; more rows are no error.
    pub fn first_row(&self) -> (r: Option<Row>)
        ensures
            r is Some <==> rows_of(self@).len() > 0,
            r matches Some(x) ==> x@ == rows_of(self@)[0],
    {
        match &self.rows {
            Some(rows) => {
                if rows.len() > 0 {
                    Some(rows[0].copy())
                } else {
                    None
                }
            },
            None => None,
        }
    }

    /// The first row in its dictionary rendering, if there is one.
    pub fn first_row_typed(&self) -> (r: Option<DynValue>)
        ensures
            r is Some <==> rows_of(self@).len() > 0,
            r matches Some(x) ==> x@ == row_dict(rows_of(self@)[0]),
    {
        match &self.rows {
            Some(rows) => {
                if rows.len() > 0 {
                    Some(rows[0].as_dict())
                } else {
                    None
                }
            },
            None => None,
        }
    }

    /// The sole row; an error unless there is exactly one.
    pub fn single_row(&self) -> (r: Result<Row, CardinalityError>)
        ensures
            rows_of(self@).len() == 0 <==> r matches Err(CardinalityError::NoRows),
            rows_of(self@).len() == 1 <==> r is Ok,
            rows_of(self@).len() > 1 <==> r matches Err(CardinalityError::TooManyRows(_)),
            r matches Ok(x) ==> x@ == rows_of(self@)[0],
            r matches Err(CardinalityError::TooManyRows(n)) ==> n == rows_of(self@).len(),
    {
        match &self.rows {
            Some(rows) => {
                if rows.len() == 1 {
                    Ok(rows[0].copy())
                } else if rows.len() == 0 {
                    Err(CardinalityError::NoRows)
                } else {
                    Err(CardinalityError::TooManyRows(rows.len()))
                }
            },
            None => Err(CardinalityError::NoRows),
        }
    }

    /// The next row in streaming order, advancing the position; `None` once
    /// every row has been handed out.
    pub fn next_row(&mut self) -> (r: Option<Row>)
        requires
            old(self).wf(),
        ensures
            final(self).wf(),
            final(self)@ == stepped(old(self)@).0,
            r is Some <==> stepped(old(self)@).1 is Some,
            r matches Some(x) ==> stepped(old(self)@).1 == Some(x@),
    {
        let pos = self.position;
        match &self.rows {
            Some(rows) => {
                if pos < rows.len() {
                    let row = rows[pos].copy();
                    self.position = pos + 1;
                    Some(row)
                } else {
                    None
                }
            },
            None => None,
        }
    }

    /// The tracing identifier captured at construction.
    pub fn tracing_id(&self) -> (r: Option<String>)
        ensures
            r is Some <==> self@.tracing_id is Some,
            r matches Some(t) ==> self@.tracing_id == Some(t@),
    {
        match &self.tracing_id {
            Some(t) => Some(copy_text(t)),
            None => None,
        }
    }

    /// The warnings captured at construction.
    pub fn warnings(&self) -> (r: Vec<String>)
        ensures
            r@.map_values(|w: String| w@) == self@.warnings,
    {
        copy_texts(&self.warnings)
    }

    /// The column descriptors, in column order; none without a rows result.
    pub fn col_specs(&self) -> (r: Vec<ColumnSpec>)
        ensures
            self@.rows is Some ==> r@.map_values(|c: ColumnSpec| (c.table_spec@, c.name@, c.typ@))
                == self@.column_specs,
            self@.rows is None ==> r.len() == 0,
    {
        let mut out: Vec<ColumnSpec> = Vec::new();
        if self.rows.is_none() {
            return out;
        }
        let mut i: usize = 0;
        while i < self.column_specs.len()
            invariant
                i <= self.column_specs.len(),
                out.len() == i,
                forall|j: int|
                    0 <= j < i ==> (#[trigger] out[j]).table_spec@ == self.column_specs[j].table_spec@
                        && out[j].name@ == self.column_specs[j].name@ && out[j].typ@
                        == self.column_specs[j].typ@,
            decreases self.column_specs.len() - i,
        {
            let c = &self.column_specs[i];
            out.push(
                ColumnSpec {
                    table_spec: copy_text(&c.table_spec),
                    name: copy_text(&c.name),
                    typ: copy_text(&c.typ),
                },
            );
            i = i + 1;
        }
        assert(out@.map_values(|c: ColumnSpec| (c.table_spec@, c.name@, c.typ@))
            =~= self@.column_specs);
        out
    }
}

} // verus!
