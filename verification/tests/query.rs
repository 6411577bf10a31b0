use worm_schema::query::Query;
use worm_schema::registry::Registry;
use worm_schema::schema::{derive_dbmodel, ColumnDescriptor, ConfigError, TableDescriptor};
use worm_schema::value::{FieldType, Value, ValueKind};

fn integer() -> FieldType {
    FieldType::required(ValueKind::Integer)
}

fn registry() -> Registry {
    let mut registry = Registry::new();
    registry
        .register(
            "Test".to_string(),
            TableDescriptor::new("TestDb", "Tests", "test"),
            vec![
                ColumnDescriptor::new("Id", "id", integer()).with_primary_key(),
                ColumnDescriptor::new("Name", "name", FieldType::required(ValueKind::Text))
                    .with_insertable(),
            ],
        )
        .unwrap();
    registry
        .register(
            "Another".to_string(),
            TableDescriptor::new("TestDb", "Anothers", "another"),
            vec![
                ColumnDescriptor::new("Id", "id", integer()).with_primary_key(),
                ColumnDescriptor::new("Test_Id", "test_id", integer())
                    .with_foreign_key("Test")
                    .with_insertable(),
            ],
        )
        .unwrap();
    registry
}

#[test]
fn select_renders_the_base_table() {
    let registry = registry();
    let q = Query::select(registry.model("Test").unwrap());
    assert_eq!(q.query_to_string(), "select test.* from TestDb.Tests as test");
    assert!(q.parameters().is_empty());
}

#[test]
fn where_eq_filters_on_the_alias() {
    let registry = registry();
    let test = registry.model("Test").unwrap();
    let name = test.constant("NAME").unwrap().clone();
    let q = Query::select(test).where_eq(&name, Value::Text("Hello".to_string()));
    let sql = q.query_to_string();
    assert!(sql.contains("from TestDb.Tests as test"));
    assert!(sql.contains("where test.Name = :name"));
    assert_eq!(sql, "select test.* from TestDb.Tests as test where test.Name = :name");
    assert_eq!(q.parameters().len(), 1);
    assert_eq!(q.parameters()[0].name, ":name");
    assert_eq!(q.parameters()[0].value, Value::Text("Hello".to_string()));
}

#[test]
fn join_fk_joins_the_target_of_each_key() {
    let registry = registry();
    let q = Query::select(registry.model("Another").unwrap()).join_fk(&registry).unwrap();
    let sql = q.query_to_string();
    assert!(sql.contains("inner join TestDb.Tests as test on another.Test_Id = test.Id"));
    assert_eq!(
        sql,
        "select another.* from TestDb.Anothers as another inner join TestDb.Tests as test on another.Test_Id = test.Id"
    );
}

#[test]
fn join_fk_needs_a_foreign_key() {
    let registry = registry();
    let r = Query::select(registry.model("Test").unwrap()).join_fk(&registry);
    assert_eq!(r.err(), Some(ConfigError::NoForeignKey));
}

#[test]
fn join_fk_needs_registered_targets() {
    let registry = registry();
    let stray = derive_dbmodel(
        "Stray".to_string(),
        TableDescriptor::new("TestDb", "Strays", "stray"),
        vec![
            ColumnDescriptor::new("Id", "id", integer()).with_primary_key(),
            ColumnDescriptor::new("Test_Id", "test_id", integer()).with_foreign_key("Test"),
            ColumnDescriptor::new("Ghost_Id", "ghost_id", integer()).with_foreign_key("Ghost"),
        ],
    )
    .unwrap();
    let r = Query::select(&stray).join_fk(&registry);
    assert_eq!(r.err(), Some(ConfigError::ForeignKeyTarget { column: 2 }));
}

#[test]
fn join_pk_follows_the_key_of_either_table() {
    let registry = registry();
    let test = registry.model("Test").unwrap();
    let another = registry.model("Another").unwrap();
    let q = Query::select(test).join_pk(another).unwrap();
    assert_eq!(
        q.query_to_string(),
        "select test.* from TestDb.Tests as test inner join TestDb.Anothers as another on another.Test_Id = test.Id"
    );
    let q = Query::select(another).join_pk(test).unwrap();
    assert_eq!(
        q.query_to_string(),
        "select another.* from TestDb.Anothers as another inner join TestDb.Tests as test on another.Test_Id = test.Id"
    );
}

#[test]
fn join_pk_needs_a_relation() {
    let registry = registry();
    let test = registry.model("Test").unwrap();
    let r = Query::select(test).join_pk(test);
    assert_eq!(r.err(), Some(ConfigError::NoForeignKey));
}

#[test]
fn join_eq_binds_a_parameter() {
    let registry = registry();
    let test = registry.model("Test").unwrap();
    let another = registry.model("Another").unwrap();
    let q = Query::select(test).join_eq(another, "Id", Value::Integer(1));
    assert_eq!(
        q.query_to_string(),
        "select test.* from TestDb.Tests as test inner join TestDb.Anothers as another on another.Id = :id"
    );
    assert_eq!(q.parameters().len(), 1);
    assert_eq!(q.parameters()[0].name, ":id");
    assert_eq!(q.parameters()[0].value, Value::Integer(1));
}

#[test]
fn joins_render_before_filters_whatever_the_order_of_calls() {
    let registry = registry();
    let test = registry.model("Test").unwrap();
    let another = registry.model("Another").unwrap();
    let hello = || Value::Text("Hello".to_string());
    let joined_first =
        Query::select(test).join_pk(another).unwrap().where_eq("Name", hello()).query_to_string();
    let filtered_first =
        Query::select(test).where_eq("Name", hello()).join_pk(another).unwrap().query_to_string();
    assert_eq!(joined_first, filtered_first);
    assert_eq!(
        joined_first,
        "select test.* from TestDb.Tests as test inner join TestDb.Anothers as another on another.Test_Id = test.Id where test.Name = :name"
    );
    assert!(joined_first.find("inner join").unwrap() < joined_first.find("where").unwrap());
}

#[test]
fn filters_are_joined_by_and_in_the_order_added() {
    let registry = registry();
    let test = registry.model("Test").unwrap();
    let q = Query::select(test)
        .where_eq("Name", Value::Text("Hello".to_string()))
        .where_eq("Id", Value::Integer(7));
    assert_eq!(
        q.query_to_string(),
        "select test.* from TestDb.Tests as test where test.Name = :name and test.Id = :id"
    );
    assert_eq!(q.parameters()[0].name, ":name");
    assert_eq!(q.parameters()[1].name, ":id");
    assert_eq!(q.parameters()[1].value, Value::Integer(7));
}

#[test]
fn rendering_twice_gives_the_same_text() {
    let registry = registry();
    let test = registry.model("Test").unwrap();
    let another = registry.model("Another").unwrap();
    let q = Query::select(test)
        .join_pk(another)
        .unwrap()
        .join_eq(another, "Id", Value::Integer(1))
        .where_eq("Name", Value::Text("Hello".to_string()));
    let first = q.query_to_string();
    let second = q.query_to_string();
    assert_eq!(first, second);
    assert_eq!(q.parameters().len(), 2);
    assert_eq!(
        first,
        "select test.* from TestDb.Tests as test inner join TestDb.Anothers as another on another.Test_Id = test.Id inner join TestDb.Anothers as another on another.Id = :id where test.Name = :name"
    );
}
