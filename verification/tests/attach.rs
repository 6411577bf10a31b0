use worm_schema::attach::{derive_wormdb, AttachError, Attachment};

fn attachment(name: &str, path: &str) -> Attachment {
    Attachment { name: name.to_string(), path: path.to_string() }
}

#[test]
fn one_entry() {
    assert_eq!(derive_wormdb("TestDb@/tmp/test.db"), Ok(vec![attachment("TestDb", "/tmp/test.db")]));
}

#[test]
fn entries_are_trimmed() {
    assert_eq!(
        derive_wormdb("  TestDb @ /tmp/test.db ,\tOther@other.db\n"),
        Ok(vec![attachment("TestDb", "/tmp/test.db"), attachment("Other", "other.db")])
    );
}

#[test]
fn trimming_follows_unicode_whitespace() {
    assert_eq!(
        derive_wormdb("\u{a0}TestDb\u{2003}@\u{3000}a b\u{2028}"),
        Ok(vec![attachment("TestDb", "a b")])
    );
    assert_eq!(derive_wormdb("_a_@_b_"), Ok(vec![attachment("_a_", "_b_")]));
}

#[test]
fn what_follows_a_second_at_is_ignored() {
    assert_eq!(derive_wormdb("a@b@c, d @ e @ f "), Ok(vec![attachment("a", "b"), attachment("d", "e")]));
}

#[test]
fn names_and_paths_may_be_empty() {
    assert_eq!(derive_wormdb("@"), Ok(vec![attachment("", "")]));
    assert_eq!(derive_wormdb(" @ , a@"), Ok(vec![attachment("", ""), attachment("a", "")]));
}

#[test]
fn an_entry_without_path_is_refused() {
    assert_eq!(derive_wormdb(""), Err(AttachError::MissingPath { entry: 0 }));
    assert_eq!(derive_wormdb("TestDb"), Err(AttachError::MissingPath { entry: 0 }));
    assert_eq!(derive_wormdb("a@b,c"), Err(AttachError::MissingPath { entry: 1 }));
    assert_eq!(derive_wormdb("a@b,"), Err(AttachError::MissingPath { entry: 1 }));
    assert_eq!(derive_wormdb("a@b,,c@d"), Err(AttachError::MissingPath { entry: 1 }));
    assert_eq!(derive_wormdb("a,b,c@d"), Err(AttachError::MissingPath { entry: 0 }));
}

#[test]
fn a_path_is_found_by_its_logical_name() {
    let list = derive_wormdb("a@one, b@two, a@three").unwrap();
    assert_eq!(worm_schema::attach::path_of(&list, "a").map(|s| s.as_str()), Some("one"));
    assert_eq!(worm_schema::attach::path_of(&list, "b").map(|s| s.as_str()), Some("two"));
    assert_eq!(worm_schema::attach::path_of(&list, "c"), None);
    assert_eq!(worm_schema::attach::path_of(&Vec::new(), "a"), None);
}
