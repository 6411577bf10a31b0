use worm_schema::schema::{derive_dbmodel, ColumnDescriptor, Model, Role, TableDescriptor};
use worm_schema::value::{FieldType, ValueKind};

fn model(columns: Vec<ColumnDescriptor>) -> Model {
    derive_dbmodel("Test".to_string(), TableDescriptor::new("TestDb", "Tests", "test"), columns)
        .unwrap()
}

fn column(name: &str, field: &str, kind: ValueKind) -> ColumnDescriptor {
    ColumnDescriptor::new(name, field, FieldType::required(kind))
}

#[test]
fn insert_names_supplied_columns_then_stamped_columns() {
    let m = model(vec![
        column("Id", "id", ValueKind::Integer).with_primary_key(),
        column("Created", "created", ValueKind::Instant).with_insertable().with_auto_timestamp(),
        column("Name", "name", ValueKind::Text).with_insertable(),
        column("Size", "size", ValueKind::Integer).with_insertable(),
    ]);
    let s = m.insert_statement().unwrap();
    assert_eq!(
        s.sql,
        "insert into TestDb.Tests ( Name, Size, Created ) values ( :name, :size, :created );"
    );
    assert_eq!(s.parameters, vec![":name", ":size", ":created"]);
}

#[test]
fn insert_with_one_column_has_no_separator() {
    let m = model(vec![
        column("Id", "id", ValueKind::Integer).with_primary_key(),
        column("Name", "name", ValueKind::Text).with_insertable(),
    ]);
    let s = m.insert_statement().unwrap();
    assert_eq!(s.sql, "insert into TestDb.Tests ( Name ) values ( :name );");
    assert_eq!(s.parameters, vec![":name"]);
}

#[test]
fn a_table_without_insertable_column_has_no_insert() {
    let m = model(vec![
        column("Id", "id", ValueKind::Integer).with_primary_key(),
        column("Name", "name", ValueKind::Text),
    ]);
    assert!(m.insert_statement().is_none());
}

#[test]
fn parameters_are_the_lowercase_field_name() {
    let m = model(vec![column("CreatedAt", "Created", ValueKind::Text).with_insertable()]);
    let s = m.insert_statement().unwrap();
    assert_eq!(s.sql, "insert into TestDb.Tests ( CreatedAt ) values ( :created );");
    assert_eq!(m.columns()[0].parameter(), ":created");
}

#[test]
fn fetch_by_primary_key() {
    let m = model(vec![
        column("Id", "id", ValueKind::Integer).with_primary_key(),
        column("Name", "name", ValueKind::Text).with_unique_name(),
    ]);
    let s = m.get_by_id().unwrap();
    assert_eq!(s.sql, "select test.* from TestDb.Tests as test where test.Id = :id");
    assert_eq!(s.parameters, vec![":id"]);
    let s = m.get_by_name().unwrap();
    assert_eq!(s.sql, "select test.* from TestDb.Tests as test where test.Name = :name");
    assert_eq!(s.parameters, vec![":name"]);
    assert!(m.fetch_by_role(Role::ActiveFlag).is_none());
}

#[test]
fn fetches_by_role_need_the_role() {
    let m = model(vec![column("Name", "name", ValueKind::Text)]);
    assert!(m.get_by_id().is_none());
    assert!(m.get_by_name().is_none());
}

#[test]
fn fetch_all_by_a_normal_column() {
    let m = model(vec![
        column("Id", "id", ValueKind::Integer).with_primary_key(),
        column("Name", "name", ValueKind::Text).with_insertable(),
    ]);
    let s = m.get_all_by("Name").unwrap();
    assert_eq!(s.sql, "select test.* from TestDb.Tests as test where test.Name = :name");
    assert_eq!(s.parameters, vec![":name"]);
    assert!(m.get_all_by("Id").is_none());
    assert!(m.get_all_by("Missing").is_none());
}

#[test]
fn table_text() {
    let t = TableDescriptor::new("TestDb", "Tests", "test");
    assert_eq!(t.qualified(), "TestDb.Tests");
    assert_eq!(t.selection(), "select test.* from TestDb.Tests as test");
    assert_eq!(t.reference("Name"), "test.Name");
}
