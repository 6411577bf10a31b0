use worm_schema::operations::{get_or_new, GetOrNew, InsertStep, Outcome};
use worm_schema::record::Record;
use worm_schema::schema::{derive_dbmodel, ColumnDescriptor, Model, Role, TableDescriptor};
use worm_schema::value::{DbError, FieldType, Timestamp, Value, ValueKind};

fn model() -> Model {
    derive_dbmodel(
        "Test".to_string(),
        TableDescriptor::new("TestDb", "Tests", "test"),
        vec![
            ColumnDescriptor::new("Id", "id", FieldType::required(ValueKind::Integer))
                .with_primary_key(),
            ColumnDescriptor::new("Name", "name", FieldType::required(ValueKind::Text))
                .with_unique_name()
                .with_insertable(),
            ColumnDescriptor::new("Created", "created", FieldType::required(ValueKind::Instant))
                .with_insertable()
                .with_auto_timestamp(),
            ColumnDescriptor::new("Note", "note", FieldType::optional(ValueKind::Text))
                .with_insertable(),
        ],
    )
    .unwrap()
}

fn ok(last_row_id: i64) -> Outcome {
    Outcome { error: None, last_row_id }
}

fn failed(message: &str) -> Outcome {
    Outcome { error: Some(DbError::Execute { message: message.to_string() }), last_row_id: 0 }
}

fn execute(message: &str) -> DbError {
    DbError::Execute { message: message.to_string() }
}

#[test]
fn bindings_pair_arguments_with_parameters() {
    let now = Timestamp { seconds: 1_700_000_000, nanos: 5 };
    let arguments = vec![Value::Text("Hello".to_string()), Value::Null];
    let list = model().insert_bindings(&arguments, now).unwrap();
    assert_eq!(list.len(), 3);
    assert_eq!(list[0].name, ":name");
    assert_eq!(list[0].value, Value::Text("Hello".to_string()));
    assert_eq!(list[1].name, ":note");
    assert_eq!(list[1].value, Value::Null);
    assert_eq!(list[2].name, ":created");
    assert_eq!(list[2].value, Value::Instant(now));
}

#[test]
fn bindings_need_one_argument_for_each_supplied_column() {
    let now = Timestamp { seconds: 0, nanos: 0 };
    assert!(model().insert_bindings(&vec![], now).is_none());
    assert!(model().insert_bindings(&vec![Value::Null], now).is_none());
    assert!(model().insert_bindings(&vec![Value::Null, Value::Null, Value::Null], now).is_none());
}

#[test]
fn bindings_are_stamped_with_the_time_of_the_call() {
    let arguments = vec![Value::Text("Hello".to_string()), Value::Null];
    let list = model().insert_bindings_now(&arguments).unwrap();
    assert_eq!(list.len(), 3);
    assert_eq!(list[0].value, Value::Text("Hello".to_string()));
    match &list[2].value {
        Value::Instant(t) => {
            assert!(t.seconds > 1_600_000_000);
            assert!(t.nanos < 1_000_000_000);
        }
        other => panic!("not an instant: {:?}", other),
    }
    assert!(model().insert_bindings_now(&vec![]).is_none());
}

#[test]
fn the_unique_name_is_found_among_the_arguments() {
    assert_eq!(model().name_argument(), Some(0));
    let m = derive_dbmodel(
        "T".to_string(),
        TableDescriptor::new("s", "t", "a"),
        vec![
            ColumnDescriptor::new("A", "a", FieldType::required(ValueKind::Text)).with_insertable(),
            ColumnDescriptor::new("B", "b", FieldType::required(ValueKind::Text))
                .with_insertable()
                .with_unique_name(),
        ],
    )
    .unwrap();
    assert_eq!(m.name_argument(), Some(1));
    let m = derive_dbmodel(
        "T".to_string(),
        TableDescriptor::new("s", "t", "a"),
        vec![ColumnDescriptor::new("A", "a", FieldType::required(ValueKind::Text)).with_unique_name()],
    )
    .unwrap();
    assert_eq!(m.name_argument(), None);
    let m = derive_dbmodel(
        "T".to_string(),
        TableDescriptor::new("s", "t", "a"),
        vec![ColumnDescriptor::new("A", "a", FieldType::required(ValueKind::Text)).with_insertable()],
    )
    .unwrap();
    assert_eq!(m.name_argument(), None);
}

#[test]
fn an_insert_that_succeeds_commits_and_fetches() {
    let mut step = InsertStep::first();
    assert_eq!(step, InsertStep::Begin);
    assert!(!step.done());
    step = step.next(ok(3));
    assert_eq!(step, InsertStep::Savepoint);
    step = step.next(ok(3));
    assert_eq!(step, InsertStep::Execute);
    step = step.next(ok(42));
    assert_eq!(step, InsertStep::Release { id: 42 });
    step = step.next(ok(43));
    assert_eq!(step, InsertStep::Commit { id: 42 });
    step = step.next(ok(44));
    assert_eq!(step, InsertStep::Fetch { id: 42 });
    assert!(step.done());
    assert_eq!(step.next(failed("late")), InsertStep::Fetch { id: 42 });
}

#[test]
fn an_insert_that_cannot_begin_fails_at_once() {
    let step = InsertStep::first().next(failed("busy"));
    assert_eq!(step, InsertStep::Fail { error: execute("busy") });
    assert!(step.done());
}

#[test]
fn a_failed_savepoint_rolls_the_transaction_back() {
    let step = InsertStep::Savepoint.next(failed("no savepoint"));
    assert_eq!(step, InsertStep::RollbackTransaction { error: execute("no savepoint") });
    assert_eq!(step.next(ok(0)), InsertStep::Fail { error: execute("no savepoint") });
}

#[test]
fn a_failed_execution_rolls_both_back() {
    let step = InsertStep::Execute.next(failed("constraint"));
    assert_eq!(step, InsertStep::RollbackSavepoint { error: execute("constraint") });
    let step = step.next(failed("rollback failed too"));
    assert_eq!(step, InsertStep::RollbackTransaction { error: execute("constraint") });
    let step = step.next(ok(0));
    assert_eq!(step, InsertStep::Fail { error: execute("constraint") });
    assert_eq!(step.next(ok(0)), InsertStep::Fail { error: execute("constraint") });
}

#[test]
fn a_failed_release_or_commit_rolls_back() {
    let step = InsertStep::Release { id: 9 }.next(failed("release"));
    assert_eq!(step, InsertStep::RollbackSavepoint { error: execute("release") });
    let step = InsertStep::Commit { id: 9 }.next(failed("commit"));
    assert_eq!(step, InsertStep::RollbackTransaction { error: execute("commit") });
}

#[test]
fn get_or_new_inserts_only_when_the_row_is_absent() {
    let record = Record { values: vec![Value::Integer(1), Value::Text("Hello".to_string())] };
    let same = Record { values: vec![Value::Integer(1), Value::Text("Hello".to_string())] };
    assert_eq!(get_or_new(Ok(record)), GetOrNew::Found(same));
    assert_eq!(get_or_new(Err(DbError::NotFound)), GetOrNew::Insert);
    assert_eq!(get_or_new(Err(execute("gone"))), GetOrNew::Fail(execute("gone")));
    assert_eq!(
        get_or_new(Err(DbError::Decode { column: 2 })),
        GetOrNew::Fail(DbError::Decode { column: 2 })
    );
    assert_eq!(
        get_or_new(Err(DbError::Prepare { message: "syntax".to_string() })),
        GetOrNew::Fail(DbError::Prepare { message: "syntax".to_string() })
    );
}

#[test]
fn a_row_is_decoded_in_declaration_order() {
    let now = Timestamp { seconds: 10, nanos: 20 };
    let cells = vec![
        Some(Value::Integer(1)),
        Some(Value::Text("Hello".to_string())),
        Some(Value::Instant(now)),
        Some(Value::Null),
        Some(Value::Integer(99)),
    ];
    let m = model();
    let record = m.from_row(&cells).unwrap();
    assert_eq!(
        record.values,
        vec![
            Value::Integer(1),
            Value::Text("Hello".to_string()),
            Value::Instant(now),
            Value::Null
        ]
    );
    assert_eq!(m.field(&record, "Note"), Some(Value::Null));
    assert_eq!(m.field(&record, "Created"), Some(Value::Instant(now)));
    assert_eq!(m.field(&record, "Name"), None);
    assert_eq!(m.field(&record, "Missing"), None);
    assert_eq!(m.role_value(&record, Role::PrimaryKey), Some(Value::Integer(1)));
    assert_eq!(m.role_value(&record, Role::UniqueName), Some(Value::Text("Hello".to_string())));
    assert_eq!(m.role_value(&record, Role::ActiveFlag), None);
    let short = Record { values: vec![Value::Integer(1)] };
    assert_eq!(m.field(&short, "Note"), None);
    assert_eq!(m.role_value(&short, Role::UniqueName), None);
}

#[test]
fn the_first_unreadable_column_is_the_error() {
    let m = model();
    let cells = vec![
        Some(Value::Integer(1)),
        Some(Value::Integer(2)),
        None,
        Some(Value::Null),
    ];
    assert_eq!(m.from_row(&cells), Err(DbError::Decode { column: 1 }));
    let cells = vec![Some(Value::Integer(1)), Some(Value::Text("a".to_string())), None];
    assert_eq!(m.from_row(&cells), Err(DbError::Decode { column: 2 }));
    let cells = vec![Some(Value::Integer(1)), Some(Value::Text("a".to_string()))];
    assert_eq!(m.from_row(&cells), Err(DbError::Decode { column: 2 }));
    let cells = vec![Some(Value::Null)];
    assert_eq!(m.from_row(&cells), Err(DbError::Decode { column: 0 }));
    assert_eq!(m.from_row(&vec![]), Err(DbError::Decode { column: 0 }));
}

#[test]
fn values_fit_fields_of_their_kind() {
    let required = FieldType::required(ValueKind::Flag);
    let optional = FieldType::optional(ValueKind::Flag);
    assert!(Value::Flag(true).has_type(required));
    assert!(!Value::Null.has_type(required));
    assert!(Value::Null.has_type(optional));
    assert!(!Value::Integer(1).has_type(optional));
    assert_eq!(Value::Text("a".to_string()).duplicate(), Value::Text("a".to_string()));
    assert_eq!(Value::Integer(4).clone(), Value::Integer(4));
}

#[test]
fn rows_are_decoded_in_the_order_returned() {
    let m = model();
    let now = Timestamp { seconds: 1, nanos: 2 };
    let row = |id: i64, name: &str| {
        vec![
            Some(Value::Integer(id)),
            Some(Value::Text(name.to_string())),
            Some(Value::Instant(now)),
            Some(Value::Null),
        ]
    };
    let records = m.from_rows(&vec![row(2, "b"), row(1, "a")]).unwrap();
    assert_eq!(records.len(), 2);
    assert_eq!(records[0].values[0], Value::Integer(2));
    assert_eq!(records[1].values[1], Value::Text("a".to_string()));
}

#[test]
fn no_rows_are_no_records() {
    assert_eq!(model().from_rows(&vec![]), Ok(vec![]));
}

#[test]
fn the_first_row_that_does_not_decode_is_the_error() {
    let m = model();
    let good = vec![
        Some(Value::Integer(1)),
        Some(Value::Text("a".to_string())),
        Some(Value::Instant(Timestamp { seconds: 1, nanos: 2 })),
        Some(Value::Null),
    ];
    let bad_name = vec![Some(Value::Integer(1)), None];
    let bad_id = vec![None];
    assert_eq!(
        m.from_rows(&vec![good, bad_name, bad_id]),
        Err(DbError::Decode { column: 1 })
    );
}
