//! What the engine decides while an operation runs against the store: the
//! values an insert binds, the steps of its transaction, and whether a
//! fetch-or-create has to create.

use vstd::prelude::*;

use crate::clock::utc_now;
use crate::record::Record;
use crate::schema::{
    indices, lemma_positions_ascend, specs_of, ColumnClass, Model, ModelSpec, Role,
};
use crate::value::{binding_views, Binding, BindingSpec, DbError, Timestamp, Value};

verus! {

impl ModelSpec {
    /// The values an insert binds: the caller's arguments to the parameters
    /// of the columns the caller supplies, in declaration order, then `now`
    /// to the parameter of every stamped column.
    pub open spec fn insert_bindings(self, arguments: Seq<Value>, now: Timestamp) -> Seq<
        BindingSpec,
    > {
        Seq::new(
            self.insert_columns().len(),
            |k: int|
                BindingSpec {
                    name: self.columns[self.insert_columns()[k]].parameter(),
                    value: if k < arguments.len() {
                        arguments[k]
                    } else {
                        Value::Instant(now)
                    },
                },
        )
    }

    /// The place of the unique name among the arguments of an insert, if the
    /// table has a unique name and the caller supplies it.
    pub open spec fn name_argument(self) -> Option<int> {
        match self.role(Role::UniqueName) {
            Some(at) => place_of(self.class(ColumnClass::Argument), at),
            None => None,
        }
    }
}

/// The first place of `list` that holds `at`.
pub open spec fn place_of(list: Seq<int>, at: int) -> Option<int>
    decreases list.len(),
{
    if list.len() == 0 {
        None
    } else {
        match place_of(list.drop_last(), at) {
            Some(k) => Some(k),
            None => if list.last() == at {
                Some(list.len() - 1)
            } else {
                None
            },
        }
    }
}

/// A match among the first `k` places is the match of the whole list.
proof fn lemma_place_persists(list: Seq<int>, at: int, k: int)
    requires
        0 <= k <= list.len(),
        place_of(list.take(k), at) is Some,
    ensures
        place_of(list, at) == place_of(list.take(k), at),
    decreases list.len(),
{
    if k == list.len() {
        assert(list.take(k) =~= list);
    } else {
        assert(list.drop_last().take(k) =~= list.take(k));
        lemma_place_persists(list.drop_last(), at, k);
    }
}

impl Model {
    /// The values an insert binds at the time `now`. `None` exactly when the
    /// number of arguments is not the number of columns the caller supplies.
    pub fn insert_bindings(&self, arguments: &Vec<Value>, now: Timestamp) -> (r: Option<
        Vec<Binding>,
    >)
        requires
            self.wf(),
        ensures
            match r {
                Some(list) => arguments.len() == self@.class(ColumnClass::Argument).len()
                    && binding_views(list@) == self@.insert_bindings(arguments@, now),
                None => arguments.len() != self@.class(ColumnClass::Argument).len(),
            },
    {
        let supplied = self.class(ColumnClass::Argument);
        let stamped = self.class(ColumnClass::Stamped);
        if arguments.len() != supplied.len() {
            return None;
        }
        let columns = self.columns();
        let ghost cols = self@.columns;
        let ghost at = self@.insert_columns();
        let ghost wanted = self@.insert_bindings(arguments@, now);
        proof {
            lemma_positions_ascend(cols, ColumnClass::Argument);
            lemma_positions_ascend(cols, ColumnClass::Stamped);
        }
        let mut list: Vec<Binding> = Vec::new();
        let mut k: usize = 0;
        while k < supplied.len()
            invariant
                k <= supplied.len(),
                supplied.len() == arguments.len(),
                cols == self@.columns,
                cols == specs_of(columns@),
                indices(supplied@) == self@.class(ColumnClass::Argument),
                at == self@.insert_columns(),
                wanted == self@.insert_bindings(arguments@, now),
                forall|j: int|
                    0 <= j < supplied.len() ==> 0 <= #[trigger] indices(supplied@)[j] < cols.len(),
                binding_views(list@) == wanted.take(k as int),
            decreases supplied.len() - k,
        {
            proof {
                assert(indices(supplied@)[k as int] == supplied[k as int]);
                assert(at[k as int] == supplied[k as int]);
            }
            let column = &columns[supplied[k]];
            let binding = Binding { name: column.parameter(), value: arguments[k].duplicate() };
            let ghost before = list@;
            list.push(binding);
            proof {
                assert(column@ == cols[supplied[k as int] as int]);
                assert(binding@ == wanted[k as int]);
                assert(binding_views(list@) =~= binding_views(before).push(binding@));
                assert(wanted.take(k + 1) =~= wanted.take(k as int).push(wanted[k as int]));
            }
            k = k + 1;
        }
        let mut s: usize = 0;
        while s < stamped.len()
            invariant
                s <= stamped.len(),
                supplied.len() == arguments.len(),
                cols == self@.columns,
                cols == specs_of(columns@),
                indices(supplied@) == self@.class(ColumnClass::Argument),
                indices(stamped@) == self@.class(ColumnClass::Stamped),
                at == self@.insert_columns(),
                wanted == self@.insert_bindings(arguments@, now),
                forall|j: int|
                    0 <= j < stamped.len() ==> 0 <= #[trigger] indices(stamped@)[j] < cols.len(),
                binding_views(list@) == wanted.take(supplied.len() + s),
            decreases stamped.len() - s,
        {
            let ghost place = supplied.len() + s;
            proof {
                assert(indices(stamped@)[s as int] == stamped[s as int]);
                assert(indices(supplied@).len() == supplied.len());
                assert(indices(stamped@).len() == stamped.len());
                assert(at[place] == stamped[s as int]);
            }
            let column = &columns[stamped[s]];
            let binding = Binding { name: column.parameter(), value: Value::Instant(now) };
            let ghost before = list@;
            list.push(binding);
            proof {
                assert(column@ == cols[stamped[s as int] as int]);
                assert(binding@ == wanted[place]);
                assert(binding_views(list@) =~= binding_views(before).push(binding@));
                assert(wanted.take(place + 1) =~= wanted.take(place).push(wanted[place]));
            }
            s = s + 1;
        }
        proof {
            assert(indices(supplied@).len() == supplied.len());
            assert(indices(stamped@).len() == stamped.len());
            assert(wanted.take(supplied.len() + stamped.len()) =~= wanted);
        }
        Some(list)
    }

    /// The values an insert binds at the time of this call: the clock is read
    /// once, and every stamped column is bound to that one instant. `None`
    /// exactly when the number of arguments is not the number of columns the
    /// caller supplies.
    pub fn insert_bindings_now(&self, arguments: &Vec<Value>) -> (r: Option<Vec<Binding>>)
        requires
            self.wf(),
        ensures
            match r {
                Some(list) => arguments.len() == self@.class(ColumnClass::Argument).len()
                    && exists|now: Timestamp|
                    now.nanos < 1_000_000_000 && binding_views(list@) == #[trigger] self@.insert_bindings(
                        arguments@,
                        now,
                    ),
                None => arguments.len() != self@.class(ColumnClass::Argument).len(),
            },
    {
        let now = utc_now();
        self.insert_bindings(arguments, now)
    }

    /// The place of the unique name among the arguments of an insert: the
    /// argument a fetch-or-create looks the row up by. `None` exactly when
    /// the table has no unique name, or the caller does not supply it.
    pub fn name_argument(&self) -> (r: Option<usize>)
        requires
            self.wf(),
        ensures
            match r {
                Some(k) => self@.name_argument() == Some(k as int),
                None => self@.name_argument() is None,
            },
    {
        let at = match self.role(Role::UniqueName) {
            Some(at) => at,
            None => {
                return None;
            },
        };
        let supplied = self.class(ColumnClass::Argument);
        let ghost list = indices(supplied@);
        let mut k: usize = 0;
        while k < supplied.len()
            invariant
                k <= supplied.len(),
                list == indices(supplied@),
                list == self@.class(ColumnClass::Argument),
                self@.role(Role::UniqueName) == Some(at as int),
                place_of(list.take(k as int), at as int) is None,
            decreases supplied.len() - k,
        {
            proof {
                assert(list.take(k + 1).drop_last() =~= list.take(k as int));
                assert(list.take(k + 1).last() == supplied[k as int]);
            }
            if supplied[k] == at {
                proof {
                    lemma_place_persists(list, at as int, k + 1);
                }
                return Some(k);
            }
            k = k + 1;
        }
        proof {
            assert(list.take(supplied.len() as int) =~= list);
        }
        None
    }
}

/// What the store reported of the step just taken: the error it failed with,
/// if it failed, and the id of the row last inserted on the connection.
pub struct Outcome {
    pub error: Option<DbError>,
    pub last_row_id: i64,
}

/// A step of an insert. The caller takes the step against the store and asks
/// for the next with what the store reported, until the step is final.
#[derive(Debug, PartialEq, Eq)]
pub enum InsertStep {
    /// Open a transaction.
    Begin,
    /// Open a savepoint within the transaction.
    Savepoint,
    /// Execute the insert statement with its bindings.
    Execute,
    /// Commit the savepoint; `id` is the id of the inserted row.
    Release { id: i64 },
    /// Commit the transaction.
    Commit { id: i64 },
    /// Roll the savepoint back, on the way to failing with `error`.
    RollbackSavepoint { error: DbError },
    /// Roll the transaction back, on the way to failing with `error`.
    RollbackTransaction { error: DbError },
    /// Final: fetch the inserted row by its id and return it.
    Fetch { id: i64 },
    /// Final: return `error`.
    Fail { error: DbError },
}

impl InsertStep {
    /// Whether nothing follows this step.
    pub open spec fn is_final(self) -> bool {
        self is Fetch || self is Fail
    }

    /// The step that follows this one, given what the store reported of it.
    ///
    /// A step that succeeds is followed by the next of begin, savepoint,
    /// execute, release, commit, fetch. A step that fails is followed by the
    /// rollback of what is open at that point, the savepoint before the
    /// transaction, and then by the failure with that step's error. A
    /// rollback is followed by what follows it whatever it reported: the
    /// error that caused it is the one returned. A final step stays.
    pub open spec fn spec_next(self, outcome: Outcome) -> InsertStep {
        match self {
            InsertStep::Begin => match outcome.error {
                Some(error) => InsertStep::Fail { error },
                None => InsertStep::Savepoint,
            },
            InsertStep::Savepoint => match outcome.error {
                Some(error) => InsertStep::RollbackTransaction { error },
                None => InsertStep::Execute,
            },
            InsertStep::Execute => match outcome.error {
                Some(error) => InsertStep::RollbackSavepoint { error },
                None => InsertStep::Release { id: outcome.last_row_id },
            },
            InsertStep::Release { id } => match outcome.error {
                Some(error) => InsertStep::RollbackSavepoint { error },
                None => InsertStep::Commit { id },
            },
            InsertStep::Commit { id } => match outcome.error {
                Some(error) => InsertStep::RollbackTransaction { error },
                None => InsertStep::Fetch { id },
            },
            InsertStep::RollbackSavepoint { error } => InsertStep::RollbackTransaction { error },
            InsertStep::RollbackTransaction { error } => InsertStep::Fail { error },
            InsertStep::Fetch { id } => InsertStep::Fetch { id },
            InsertStep::Fail { error } => InsertStep::Fail { error },
        }
    }

    /// The first step of an insert.
    pub fn first() -> (r: InsertStep)
        ensures
            r == InsertStep::Begin,
    {
        InsertStep::Begin
    }

    /// Whether nothing follows this step.
    pub fn done(&self) -> (r: bool)
        ensures
            r == self.is_final(),
    {
        match self {
            InsertStep::Fetch { .. } => true,
            InsertStep::Fail { .. } => true,
            _ => false,
        }
    }

    /// The step that follows this one, given what the store reported of it.
    pub fn next(self, outcome: Outcome) -> (r: InsertStep)
        ensures
            r == self.spec_next(outcome),
    {
        match self {
            InsertStep::Begin => match outcome.error {
                Some(error) => InsertStep::Fail { error },
                None => InsertStep::Savepoint,
            },
            InsertStep::Savepoint => match outcome.error {
                Some(error) => InsertStep::RollbackTransaction { error },
                None => InsertStep::Execute,
            },
            InsertStep::Execute => match outcome.error {
                Some(error) => InsertStep::RollbackSavepoint { error },
                None => InsertStep::Release { id: outcome.last_row_id },
            },
            InsertStep::Release { id } => match outcome.error {
                Some(error) => InsertStep::RollbackSavepoint { error },
                None => InsertStep::Commit { id },
            },
            InsertStep::Commit { id } => match outcome.error {
                Some(error) => InsertStep::RollbackTransaction { error },
                None => InsertStep::Fetch { id },
            },
            InsertStep::RollbackSavepoint { error } => InsertStep::RollbackTransaction { error },
            InsertStep::RollbackTransaction { error } => InsertStep::Fail { error },
            InsertStep::Fetch { id } => InsertStep::Fetch { id },
            InsertStep::Fail { error } => InsertStep::Fail { error },
        }
    }
}

/// The step an insert has reached after the store reported `outcomes`, one
/// for each step taken from `step` on.
pub open spec fn run(step: InsertStep, outcomes: Seq<Outcome>) -> InsertStep
    decreases outcomes.len(),
{
    if outcomes.len() == 0 {
        step
    } else {
        run(step, outcomes.drop_last()).spec_next(outcomes.last())
    }
}

/// Whether the transaction is open when `step` is about to be taken.
pub open spec fn in_transaction(step: InsertStep) -> bool {
    step is Savepoint || step is Execute || step is Release || step is Commit
        || step is RollbackSavepoint || step is RollbackTransaction
}

/// Whether the savepoint is open when `step` is about to be taken.
pub open spec fn in_savepoint(step: InsertStep) -> bool {
    step is Execute || step is Release || step is RollbackSavepoint
}

/// An insert whose five steps all succeed ends by fetching the row that the
/// store reported as inserted when the statement was executed.
pub proof fn lemma_insert_commits(outcomes: Seq<Outcome>)
    requires
        outcomes.len() == 5,
        forall|k: int| 0 <= k < 5 ==> (#[trigger] outcomes[k]).error is None,
    ensures
        run(InsertStep::Begin, outcomes) == (InsertStep::Fetch { id: outcomes[2].last_row_id }),
{
    reveal_with_fuel(run, 6);
    let four = outcomes.drop_last();
    let three = four.drop_last();
    let two = three.drop_last();
    let one = two.drop_last();
    assert(one[0] == outcomes[0] && two[1] == outcomes[1] && three[2] == outcomes[2] && four[3]
        == outcomes[3]);
    assert(one.drop_last().len() == 0);
}

/// A step that fails while the transaction is open is followed by the
/// rollback of the savepoint, if that is open, then by the rollback of the
/// transaction, and then by the failure with the error of that step, whatever
/// the rollbacks report. Nothing is committed on the way.
pub proof fn lemma_failure_rolls_back(
    step: InsertStep,
    error: DbError,
    failed: Outcome,
    first: Outcome,
    second: Outcome,
)
    requires
        in_transaction(step),
        !(step is RollbackSavepoint),
        !(step is RollbackTransaction),
        failed.error == Some(error),
    ensures
        in_savepoint(step) ==> {
            &&& step.spec_next(failed) == (InsertStep::RollbackSavepoint { error })
            &&& step.spec_next(failed).spec_next(first) == (InsertStep::RollbackTransaction {
                error,
            })
            &&& step.spec_next(failed).spec_next(first).spec_next(second) == (InsertStep::Fail {
                error,
            })
        },
        !in_savepoint(step) ==> {
            &&& step.spec_next(failed) == (InsertStep::RollbackTransaction { error })
            &&& step.spec_next(failed).spec_next(first) == (InsertStep::Fail { error })
        },
{
}

/// An insert fetches a row only after the transaction was committed: every
/// step that leads to the fetch succeeded.
pub proof fn lemma_fetch_follows_commit(step: InsertStep, outcome: Outcome)
    requires
        !step.is_final(),
        step.spec_next(outcome) is Fetch,
    ensures
        step is Commit,
        outcome.error is None,
{
}

/// An insert that fails returns an error that the store reported: no step
/// makes one up, and none is dropped once it is on its way.
pub proof fn lemma_errors_surface(step: InsertStep, outcome: Outcome)
    ensures
        match step {
            InsertStep::RollbackSavepoint { error } => step.spec_next(outcome)
                == (InsertStep::RollbackTransaction { error }),
            InsertStep::RollbackTransaction { error } => step.spec_next(outcome) == (InsertStep::Fail {
                error,
            }),
            InsertStep::Fail { error } => step.spec_next(outcome) == step,
            InsertStep::Fetch { id } => step.spec_next(outcome) == step,
            _ => match outcome.error {
                Some(error) => step.spec_next(outcome) == (InsertStep::Fail { error })
                    || step.spec_next(outcome) == (InsertStep::RollbackSavepoint { error })
                    || step.spec_next(outcome) == (InsertStep::RollbackTransaction { error }),
                None => !(step.spec_next(outcome) is Fail) && !(step.spec_next(outcome)
                    is RollbackSavepoint) && !(step.spec_next(outcome) is RollbackTransaction),
            },
        },
{
}

/// What a fetch-or-create does once the row was looked up by its unique
/// name.
#[derive(Debug, PartialEq, Eq)]
pub enum GetOrNew {
    /// The row exists: return it, and insert nothing.
    Found(Record),
    /// There is no such row: insert it.
    Insert,
    /// The lookup failed: return its error, and insert nothing.
    Fail(DbError),
}

/// Decides what a fetch-or-create does with the result of the lookup by
/// unique name. Only a lookup that found no row leads to an insert; any other
/// error is returned as it is.
pub fn get_or_new(lookup: Result<Record, DbError>) -> (r: GetOrNew)
    ensures
        r == match lookup {
            Ok(record) => GetOrNew::Found(record),
            Err(DbError::NotFound) => GetOrNew::Insert,
            Err(e) => GetOrNew::Fail(e),
        },
{
    match lookup {
        Ok(record) => GetOrNew::Found(record),
        Err(DbError::NotFound) => GetOrNew::Insert,
        Err(e) => GetOrNew::Fail(e),
    }
}

/// A fetch-or-create inserts exactly when the lookup found no row.
pub proof fn lemma_insert_only_when_absent(lookup: Result<Record, DbError>, decision: GetOrNew)
    requires
        decision == match lookup {
            Ok(record) => GetOrNew::Found(record),
            Err(DbError::NotFound) => GetOrNew::Insert,
            Err(e) => GetOrNew::Fail(e),
        },
    ensures
        decision is Insert <==> lookup == Err::<Record, DbError>(DbError::NotFound),
        lookup matches Ok(record) ==> decision == GetOrNew::Found(record),
{
}

} // verus!
