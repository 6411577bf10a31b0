//! Records: the values of one row, decoded against a model.

use vstd::prelude::*;

use crate::schema::{specs_of, ColumnSpec, Model, Role};
use crate::value::{DbError, Value};

verus! {

/// The values of one row, one for each column of its table, in declaration
/// order.
#[derive(Debug, PartialEq, Eq)]
pub struct Record {
    pub values: Vec<Value>,
}

/// Whether the cell read for the column at `at` holds a value of the type of
/// the field the column is bound to. A cell is `None` where the store had no
/// value to give; a row with fewer cells than columns lacks the rest.
pub open spec fn readable(cols: Seq<ColumnSpec>, cells: Seq<Option<Value>>, at: int) -> bool {
    at < cells.len() && cells[at] is Some && cells[at]->0.fits(cols[at].field_type)
}

/// The position of the first of the first `upto` columns whose cell is not
/// readable.
pub open spec fn first_unreadable(cols: Seq<ColumnSpec>, cells: Seq<Option<Value>>, upto: int)
    -> Option<int>
    decreases upto,
{
    if upto <= 0 {
        None
    } else {
        match first_unreadable(cols, cells, upto - 1) {
            Some(at) => Some(at),
            None => if readable(cols, cells, upto - 1) {
                None
            } else {
                Some(upto - 1)
            },
        }
    }
}

/// An unreadable cell among the first `k` columns is the first of the row.
proof fn lemma_unreadable_persists(
    cols: Seq<ColumnSpec>,
    cells: Seq<Option<Value>>,
    k: int,
    upto: int,
)
    requires
        0 <= k <= upto,
        first_unreadable(cols, cells, k) is Some,
    ensures
        first_unreadable(cols, cells, upto) == first_unreadable(cols, cells, k),
    decreases upto,
{
    if k < upto {
        lemma_unreadable_persists(cols, cells, k, upto - 1);
    }
}

/// What a row decodes to: the values of its cells, one for each column, or
/// the first column whose cell is not readable.
pub open spec fn decoded(cols: Seq<ColumnSpec>, cells: Seq<Option<Value>>) -> Result<
    Seq<Value>,
    DbError,
> {
    match first_unreadable(cols, cells, cols.len() as int) {
        Some(at) => Err(DbError::Decode { column: at as usize }),
        None => Ok(Seq::new(cols.len(), |at: int| cells[at]->0)),
    }
}

/// What a list of rows decodes to: what each row decodes to, in order, or the
/// error of the first row that does not decode.
pub open spec fn decoded_all(cols: Seq<ColumnSpec>, rows: Seq<Seq<Option<Value>>>) -> Result<
    Seq<Seq<Value>>,
    DbError,
>
    decreases rows.len(),
{
    if rows.len() == 0 {
        Ok(Seq::empty())
    } else {
        match decoded_all(cols, rows.drop_last()) {
            Err(e) => Err(e),
            Ok(list) => match decoded(cols, rows.last()) {
                Ok(values) => Ok(list.push(values)),
                Err(e) => Err(e),
            },
        }
    }
}

/// The cells of a list of rows.
pub open spec fn row_views(rows: Seq<Vec<Option<Value>>>) -> Seq<Seq<Option<Value>>> {
    rows.map_values(|row: Vec<Option<Value>>| row@)
}

/// The values of a list of records.
pub open spec fn record_views(records: Seq<Record>) -> Seq<Seq<Value>> {
    records.map_values(|record: Record| record.values@)
}

/// A row that does not decode among the first rows decides the whole list.
proof fn lemma_decoding_fails(
    cols: Seq<ColumnSpec>,
    done: Seq<Seq<Option<Value>>>,
    rest: Seq<Seq<Option<Value>>>,
)
    requires
        decoded_all(cols, done) is Err,
    ensures
        decoded_all(cols, done + rest) == decoded_all(cols, done),
    decreases rest.len(),
{
    if rest.len() == 0 {
        assert(done + rest =~= done);
    } else {
        assert((done + rest).drop_last() =~= done + rest.drop_last());
        lemma_decoding_fails(cols, done, rest.drop_last());
    }
}

/// No row to decode is no record, and no error.
pub proof fn lemma_no_rows_decode_to_no_records(cols: Seq<ColumnSpec>)
    ensures
        decoded_all(cols, Seq::empty()) == Ok::<Seq<Seq<Value>>, DbError>(Seq::empty()),
{
}

impl Model {
    /// Decodes a row. `cells` holds what was read for each column, in
    /// declaration order; cells beyond the last column are ignored.
    ///
    /// The columns are taken in declaration order, and the first whose cell
    /// is missing, or holds a value that is not of its field's type, is the
    /// error. Otherwise the record holds the cells' values, one for each
    /// column.
    pub fn from_row(&self, cells: &Vec<Option<Value>>) -> (r: Result<Record, DbError>)
        ensures
            match r {
                Ok(record) => decoded(self@.columns, cells@) == Ok::<Seq<Value>, DbError>(
                    record.values@,
                ),
                Err(e) => decoded(self@.columns, cells@) == Err::<Seq<Value>, DbError>(e),
            },
    {
        let columns = self.columns();
        let ghost cols = self@.columns;
        let mut values: Vec<Value> = Vec::new();
        let mut i: usize = 0;
        while i < columns.len()
            invariant
                i <= columns.len(),
                cols == self@.columns,
                cols == specs_of(columns@),
                values.len() == i,
                first_unreadable(cols, cells@, i as int) is None,
                forall|at: int| 0 <= at < i ==> cells[at] == Some(#[trigger] values[at]),
            decreases columns.len() - i,
        {
            let column = &columns[i];
            proof {
                assert(column@ == cols[i as int]);
            }
            if i < cells.len() {
                match &cells[i] {
                    Some(value) => {
                        if value.has_type(column.field_type) {
                            values.push(value.duplicate());
                            i = i + 1;
                            continue ;
                        }
                    },
                    None => {},
                }
            }
            proof {
                assert(!readable(cols, cells@, i as int));
                lemma_unreadable_persists(cols, cells@, i + 1, cols.len() as int);
            }
            return Err(DbError::Decode { column: i });
        }
        proof {
            assert(values@ =~= Seq::new(cols.len(), |at: int| cells[at]->0));
        }
        Ok(Record { values })
    }

    /// Decodes the rows of a fetch, in the order in which the store returned
    /// them. The first row that does not decode is the error; no row at all
    /// is no record, and no error.
    pub fn from_rows(&self, rows: &Vec<Vec<Option<Value>>>) -> (r: Result<Vec<Record>, DbError>)
        ensures
            match r {
                Ok(records) => decoded_all(self@.columns, row_views(rows@)) == Ok::<
                    Seq<Seq<Value>>,
                    DbError,
                >(record_views(records@)),
                Err(e) => decoded_all(self@.columns, row_views(rows@)) == Err::<
                    Seq<Seq<Value>>,
                    DbError,
                >(e),
            },
    {
        let ghost cols = self@.columns;
        let ghost all = row_views(rows@);
        let mut records: Vec<Record> = Vec::new();
        proof {
            assert(record_views(records@) =~= Seq::<Seq<Value>>::empty());
        }
        let mut i: usize = 0;
        while i < rows.len()
            invariant
                i <= rows.len(),
                cols == self@.columns,
                all == row_views(rows@),
                decoded_all(cols, all.take(i as int)) == Ok::<Seq<Seq<Value>>, DbError>(
                    record_views(records@),
                ),
            decreases rows.len() - i,
        {
            proof {
                assert(all.take(i + 1).drop_last() =~= all.take(i as int));
                assert(all.take(i + 1).last() == rows[i as int]@);
            }
            match self.from_row(&rows[i]) {
                Ok(record) => {
                    let ghost before = records@;
                    records.push(record);
                    proof {
                        assert(record_views(records@) =~= record_views(before).push(
                            record.values@,
                        ));
                    }
                },
                Err(e) => {
                    proof {
                        assert(all =~= all.take(i + 1) + all.skip(i + 1));
                        lemma_decoding_fails(cols, all.take(i + 1), all.skip(i + 1));
                    }
                    return Err(e);
                },
            }
            i = i + 1;
        }
        proof {
            assert(all.take(rows.len() as int) =~= all);
        }
        Ok(records)
    }

    /// A copy of the value a record holds for the normal column named
    /// `column`. `None` exactly when the table has no normal column of that
    /// name, or the record is too short to hold it.
    pub fn field(&self, record: &Record, column: &str) -> (r: Option<Value>)
        requires
            self.wf(),
        ensures
            r == match self@.normal_column(column@) {
                Some(at) => if at < record.values.len() {
                    Some(record.values[at])
                } else {
                    None
                },
                None => None,
            },
    {
        match self.normal_column(column) {
            Some(at) => if at < record.values.len() {
                Some(record.values[at].duplicate())
            } else {
                None
            },
            None => None,
        }
    }

    /// A copy of the value a record holds for the column that plays `role`.
    /// `None` exactly when no column plays it, or the record is too short to
    /// hold it.
    pub fn role_value(&self, record: &Record, role: Role) -> (r: Option<Value>)
        requires
            self.wf(),
        ensures
            r == match self@.role(role) {
                Some(at) => if at < record.values.len() {
                    Some(record.values[at])
                } else {
                    None
                },
                None => None,
            },
    {
        match self.role(role) {
            Some(at) => if at < record.values.len() {
                Some(record.values[at].duplicate())
            } else {
                None
            },
            None => None,
        }
    }
}

} // verus!
