use worm_schema::registry::Registry;
use worm_schema::schema::{
    derive_dbmodel, ColumnClass, ColumnDescriptor, ConfigError, Model, Role, TableDescriptor,
};
use worm_schema::value::{FieldType, ValueKind};

fn integer() -> FieldType {
    FieldType::required(ValueKind::Integer)
}

fn text() -> FieldType {
    FieldType::required(ValueKind::Text)
}

fn tests_columns() -> Vec<ColumnDescriptor> {
    vec![
        ColumnDescriptor::new("Id", "id", integer()).with_primary_key(),
        ColumnDescriptor::new("Name", "name", text()).with_insertable(),
    ]
}

fn anothers_columns() -> Vec<ColumnDescriptor> {
    vec![
        ColumnDescriptor::new("Id", "id", integer()).with_primary_key(),
        ColumnDescriptor::new("Test_Id", "test_id", integer())
            .with_foreign_key("Test")
            .with_insertable(),
    ]
}

fn derive(columns: Vec<ColumnDescriptor>) -> Result<Model, ConfigError> {
    derive_dbmodel("Test".to_string(), TableDescriptor::new("TestDb", "Tests", "test"), columns)
}

#[test]
fn a_table_with_one_of_each_role_is_accepted() {
    let model = derive(vec![
        ColumnDescriptor::new("Id", "id", integer()).with_primary_key(),
        ColumnDescriptor::new("Active", "active", FieldType::required(ValueKind::Flag))
            .with_active_flag(),
        ColumnDescriptor::new("Name", "name", text()).with_unique_name().with_insertable(),
        ColumnDescriptor::new("Created", "created", FieldType::required(ValueKind::Instant))
            .with_insertable()
            .with_auto_timestamp(),
        ColumnDescriptor::new("Note", "note", FieldType::optional(ValueKind::Text)),
    ])
    .unwrap();
    assert_eq!(model.role(Role::PrimaryKey), Some(0));
    assert_eq!(model.role(Role::ActiveFlag), Some(1));
    assert_eq!(model.role(Role::UniqueName), Some(2));
    assert_eq!(model.class(ColumnClass::Normal), &vec![3, 4]);
    assert_eq!(model.class(ColumnClass::Argument), &vec![2]);
    assert_eq!(model.class(ColumnClass::Stamped), &vec![3]);
    assert_eq!(model.class(ColumnClass::Reference), &Vec::<usize>::new());
    assert_eq!(model.record_type(), "Test");
    assert_eq!(model.table().alias, "test");
    assert_eq!(model.columns().len(), 5);
}

#[test]
fn a_table_without_columns_is_accepted() {
    let model = derive(vec![]).unwrap();
    assert_eq!(model.role(Role::PrimaryKey), None);
    assert!(model.class(ColumnClass::Normal).is_empty());
    assert!(model.constants().is_empty());
    assert!(model.foreign_keys().is_empty());
}

#[test]
fn a_second_primary_key_is_refused() {
    let r = derive(vec![
        ColumnDescriptor::new("Id", "id", integer()).with_primary_key(),
        ColumnDescriptor::new("Name", "name", text()),
        ColumnDescriptor::new("Other", "other", integer()).with_primary_key(),
    ]);
    assert_eq!(r.err(), Some(ConfigError::DuplicatePrimaryKey { column: 2 }));
}

#[test]
fn a_second_active_flag_is_refused() {
    let flag = FieldType::required(ValueKind::Flag);
    let r = derive(vec![
        ColumnDescriptor::new("A", "a", flag).with_active_flag(),
        ColumnDescriptor::new("B", "b", flag).with_active_flag(),
    ]);
    assert_eq!(r.err(), Some(ConfigError::DuplicateActiveFlag { column: 1 }));
}

#[test]
fn a_second_unique_name_is_refused() {
    let r = derive(vec![
        ColumnDescriptor::new("A", "a", text()).with_unique_name(),
        ColumnDescriptor::new("B", "b", text()),
        ColumnDescriptor::new("C", "c", text()),
        ColumnDescriptor::new("D", "d", text()).with_unique_name(),
    ]);
    assert_eq!(r.err(), Some(ConfigError::DuplicateUniqueName { column: 3 }));
}

#[test]
fn a_timestamp_that_is_not_insertable_is_refused() {
    let r = derive(vec![
        ColumnDescriptor::new("Id", "id", integer()).with_primary_key(),
        ColumnDescriptor::new("Created", "created", FieldType::required(ValueKind::Instant))
            .with_auto_timestamp(),
    ]);
    assert_eq!(r.err(), Some(ConfigError::TimestampNotInsertable { column: 1 }));
}

#[test]
fn the_earliest_offending_column_is_charged() {
    let r = derive(vec![
        ColumnDescriptor::new("Id", "id", integer()).with_primary_key(),
        ColumnDescriptor::new("Created", "created", FieldType::required(ValueKind::Instant))
            .with_auto_timestamp(),
        ColumnDescriptor::new("Other", "other", integer()).with_primary_key(),
    ]);
    assert_eq!(r.err(), Some(ConfigError::TimestampNotInsertable { column: 1 }));
}

#[test]
fn a_column_that_breaks_two_rules_is_charged_with_the_first() {
    let r = derive(vec![
        ColumnDescriptor::new("A", "a", integer()).with_primary_key().with_active_flag(),
        ColumnDescriptor::new("B", "b", integer())
            .with_primary_key()
            .with_active_flag()
            .with_auto_timestamp(),
    ]);
    assert_eq!(r.err(), Some(ConfigError::DuplicateActiveFlag { column: 1 }));
}

#[test]
fn foreign_keys_bind_the_lowercase_column_name() {
    let model = derive_dbmodel(
        "Another".to_string(),
        TableDescriptor::new("TestDb", "Anothers", "another"),
        anothers_columns(),
    )
    .unwrap();
    let keys = model.foreign_keys();
    assert_eq!(keys.len(), 1);
    assert_eq!(keys[0].source_column, "Test_Id");
    assert_eq!(keys[0].target_type, "Test");
    assert_eq!(keys[0].field_binding, "test_id");
    assert_eq!(keys[0].bind_parameter_name, ":test_id");
    assert_eq!(model.class(ColumnClass::Reference), &vec![1]);
    assert_eq!(model.class(ColumnClass::Normal), &Vec::<usize>::new());
}

#[test]
fn constants_name_columns_in_uppercase() {
    let model = derive(tests_columns()).unwrap();
    let constants = model.constants();
    assert_eq!(constants.len(), 2);
    assert_eq!(constants[0].name, "ID");
    assert_eq!(constants[0].column, "Id");
    assert_eq!(constants[1].name, "NAME");
    assert_eq!(constants[1].column, "Name");
    assert_eq!(model.constant("NAME").map(|s| s.as_str()), Some("Name"));
    assert_eq!(model.constant("Name"), None);
    assert_eq!(model.constant("MISSING"), None);
}

#[test]
fn an_insertable_column_without_key_role_is_normal() {
    let model = derive(tests_columns()).unwrap();
    assert_eq!(model.class(ColumnClass::Normal), &vec![1]);
    assert_eq!(model.normal_column("Name"), Some(1));
    assert_eq!(model.normal_column("Id"), None);
    assert_eq!(model.normal_column("name"), None);
}

#[test]
fn registration_enters_valid_tables_in_order() {
    let mut registry = Registry::new();
    assert_eq!(registry.len(), 0);
    assert_eq!(
        registry.register(
            "Test".to_string(),
            TableDescriptor::new("TestDb", "Tests", "test"),
            tests_columns()
        ),
        Ok(())
    );
    assert_eq!(
        registry.register(
            "Another".to_string(),
            TableDescriptor::new("TestDb", "Anothers", "another"),
            anothers_columns()
        ),
        Ok(())
    );
    assert_eq!(registry.len(), 2);
    assert_eq!(registry.model("Test").unwrap().table().table, "Tests");
    assert_eq!(registry.model("Another").unwrap().table().table, "Anothers");
    assert!(registry.model("Missing").is_none());
}

#[test]
fn registration_refuses_a_repeated_role_and_keeps_the_registry() {
    let mut registry = Registry::new();
    let r = registry.register(
        "Test".to_string(),
        TableDescriptor::new("TestDb", "Tests", "test"),
        vec![
            ColumnDescriptor::new("Id", "id", integer()).with_primary_key(),
            ColumnDescriptor::new("Id2", "id2", integer()).with_primary_key(),
        ],
    );
    assert_eq!(r, Err(ConfigError::DuplicatePrimaryKey { column: 1 }));
    assert_eq!(registry.len(), 0);
}

#[test]
fn registration_refuses_a_registered_type() {
    let mut registry = Registry::new();
    let table = || TableDescriptor::new("TestDb", "Tests", "test");
    assert_eq!(registry.register("Test".to_string(), table(), tests_columns()), Ok(()));
    assert_eq!(
        registry.register("Test".to_string(), table(), tests_columns()),
        Err(ConfigError::DuplicateType)
    );
    assert_eq!(registry.len(), 1);
}

#[test]
fn registration_refuses_a_key_to_an_unknown_type() {
    let mut registry = Registry::new();
    let r = registry.register(
        "Another".to_string(),
        TableDescriptor::new("TestDb", "Anothers", "another"),
        anothers_columns(),
    );
    assert_eq!(r, Err(ConfigError::ForeignKeyTarget { column: 1 }));
    assert_eq!(registry.len(), 0);
}

#[test]
fn registration_refuses_a_key_to_a_type_without_primary_key() {
    let mut registry = Registry::new();
    assert_eq!(
        registry.register(
            "Test".to_string(),
            TableDescriptor::new("TestDb", "Tests", "test"),
            vec![ColumnDescriptor::new("Name", "name", text()).with_insertable()],
        ),
        Ok(())
    );
    let r = registry.register(
        "Another".to_string(),
        TableDescriptor::new("TestDb", "Anothers", "another"),
        anothers_columns(),
    );
    assert_eq!(r, Err(ConfigError::ForeignKeyTarget { column: 1 }));
}

#[test]
fn registration_accepts_a_key_to_the_table_itself() {
    let mut registry = Registry::new();
    let r = registry.register(
        "Node".to_string(),
        TableDescriptor::new("TestDb", "Nodes", "node"),
        vec![
            ColumnDescriptor::new("Id", "id", integer()).with_primary_key(),
            ColumnDescriptor::new("Parent_Id", "parent_id", integer()).with_foreign_key("Node"),
        ],
    );
    assert_eq!(r, Ok(()));
    let r = registry.register(
        "Leaf".to_string(),
        TableDescriptor::new("TestDb", "Leaves", "leaf"),
        vec![ColumnDescriptor::new("Self_Id", "self_id", integer()).with_foreign_key("Leaf")],
    );
    assert_eq!(r, Err(ConfigError::ForeignKeyTarget { column: 0 }));
}
