use flp_rusty_model::database::Database;
use flp_rusty_model::metadata::{read, Declaration, FieldDecl, Shape};
use flp_rusty_model::plan::derive_plan;
use flp_rusty_model::record::{Record, Value};
use flp_rusty_model::resolve::AccessError;
use flp_rusty_model::table::{copies, ids, lookup, position, select};

fn field(name: &str, findable: bool) -> FieldDecl {
    FieldDecl { name: name.to_string(), ty: "u64".to_string(), findable }
}

fn declaration(
    name: &str,
    fields: Vec<FieldDecl>,
    belongs_to: &[&str],
    has_many: &[&str],
) -> Declaration {
    let mut all = vec![field("id", false)];
    all.extend(fields);
    Declaration {
        name: name.to_string(),
        shape: Shape::Record(all),
        service: Some("service".to_string()),
        belongs_to: belongs_to.iter().map(|name| name.to_string()).collect(),
        has_many: has_many.iter().map(|name| name.to_string()).collect(),
    }
}

fn register(db: &mut Database, decl: Declaration) {
    db.register(derive_plan(&read(decl).unwrap()));
}

/// Users have posts, posts have comments.
fn blog() -> Database {
    let mut db = Database::new();
    register(
        &mut db,
        declaration("User", vec![field("name", true), field("age", true)], &[], &["post"]),
    );
    register(
        &mut db,
        declaration(
            "Post",
            vec![field("title", true), field("user_id", true)],
            &["user"],
            &["comment"],
        ),
    );
    register(&mut db, declaration("Comment", vec![field("post_id", true)], &["post"], &[]));
    db
}

fn num(number: u64) -> Value {
    Value::Int(number)
}

fn txt(text: &str) -> Value {
    Value::Text(text.to_string())
}

fn user(id: u64, name: &str, age: u64) -> Record {
    Record::new(num(id)).with("name", txt(name)).with("age", num(age))
}

fn post(id: &str, title: &str, user_id: u64) -> Record {
    Record::new(txt(id)).with("title", txt(title)).with("user_id", num(user_id))
}

fn comment(id: u64, post_id: &str) -> Record {
    Record::new(num(id)).with("post_id", txt(post_id))
}

fn id_list(records: &[Record]) -> Vec<Value> {
    records.iter().map(|record| record.id.clone()).collect()
}

#[test]
fn scenario_of_a_user_and_a_post() {
    let mut db = blog();
    let saved_user = db.save("User", user(1, "Test User", 20)).unwrap();
    let saved_post = db.save("Post", post("1234abcd", "Test post", 1)).unwrap();
    assert_eq!(saved_user, user(1, "Test User", 20));
    assert_eq!(saved_post, post("1234abcd", "Test post", 1));

    let found = db.find("User", &num(1)).unwrap().unwrap();
    assert_eq!(found.get("name"), Some(&txt("Test User")));
    assert_eq!(db.find_by("User", "find_by_age", &num(20)).unwrap(), vec![found.clone()]);
    assert_eq!(db.children("User", &found, "post_list").unwrap(), vec![saved_post.clone()]);
    assert_eq!(db.parent("Post", &saved_post, "user").unwrap(), Some(found.clone()));

    assert_eq!(db.destroy("User", &found), Ok(()));
    assert!(db.all("User").unwrap().is_empty());
    assert!(db.all("Post").unwrap().is_empty());
}

#[test]
fn find_by_keeps_the_order_of_all() {
    let mut db = blog();
    db.save("User", user(5, "Ann", 30)).unwrap();
    db.save("User", user(2, "Bob", 20)).unwrap();
    db.save("User", user(9, "Cid", 30)).unwrap();
    db.save("User", user(1, "Dee", 30)).unwrap();
    let all = db.all("User").unwrap();
    assert_eq!(id_list(&all), vec![num(5), num(2), num(9), num(1)]);
    let found = db.find_by("User", "find_by_age", &num(30)).unwrap();
    assert_eq!(id_list(&found), vec![num(5), num(9), num(1)]);
    let expected: Vec<Record> =
        all.into_iter().filter(|user| user.get("age") == Some(&num(30))).collect();
    assert_eq!(found, expected);
    assert!(db.find_by("User", "find_by_age", &num(31)).unwrap().is_empty());
    assert_eq!(id_list(&db.find_by("User", "find_by_name", &txt("Bob")).unwrap()), vec![num(2)]);
}

#[test]
fn find_by_compares_kind_and_content() {
    let mut db = blog();
    db.save("User", user(1, "20", 20)).unwrap();
    assert!(db.find_by("User", "find_by_age", &txt("20")).unwrap().is_empty());
    assert!(db.find_by("User", "find_by_name", &num(20)).unwrap().is_empty());
    assert_eq!(db.find_by("User", "find_by_name", &txt("20")).unwrap().len(), 1);
}

#[test]
fn find_gives_the_saved_record_or_nothing() {
    let mut db = blog();
    assert_eq!(db.find("User", &num(1)), Ok(None));
    db.save("User", user(1, "Ann", 30)).unwrap();
    db.save("User", user(2, "Bob", 20)).unwrap();
    assert_eq!(db.find("User", &num(2)), Ok(Some(user(2, "Bob", 20))));
    assert_eq!(db.find("User", &num(3)), Ok(None));
    assert_eq!(db.find("User", &txt("2")), Ok(None));
    assert_eq!(db.find("Post", &num(2)), Ok(None));
}

#[test]
fn save_with_a_stored_id_replaces() {
    let mut db = blog();
    db.save("User", user(1, "Ann", 30)).unwrap();
    db.save("User", user(2, "Bob", 20)).unwrap();
    db.save("User", user(3, "Cid", 40)).unwrap();
    assert_eq!(db.save("User", user(2, "Rob", 21)), Ok(user(2, "Rob", 21)));
    assert_eq!(
        db.all("User").unwrap(),
        vec![user(1, "Ann", 30), user(2, "Rob", 21), user(3, "Cid", 40)]
    );
    assert_eq!(db.find("User", &num(2)), Ok(Some(user(2, "Rob", 21))));
    db.save("User", user(2, "Rob", 21)).unwrap();
    assert_eq!(db.all("User").unwrap().len(), 3);
}

#[test]
fn same_id_in_two_types_is_two_records() {
    let mut db = blog();
    db.save("User", user(1, "Ann", 30)).unwrap();
    db.save("Comment", comment(1, "p")).unwrap();
    assert_eq!(db.all("User").unwrap().len(), 1);
    assert_eq!(db.all("Comment").unwrap().len(), 1);
    assert_eq!(db.find("Comment", &num(1)), Ok(Some(comment(1, "p"))));
}

fn filled_blog() -> Database {
    let mut db = blog();
    db.save("User", user(1, "Ann", 30)).unwrap();
    db.save("User", user(2, "Bob", 20)).unwrap();
    db.save("Post", post("a", "first", 1)).unwrap();
    db.save("Post", post("b", "second", 2)).unwrap();
    db.save("Post", post("c", "third", 1)).unwrap();
    db.save("Comment", comment(10, "a")).unwrap();
    db.save("Comment", comment(11, "b")).unwrap();
    db.save("Comment", comment(12, "c")).unwrap();
    db.save("Comment", comment(13, "a")).unwrap();
    db
}

#[test]
fn destroy_cascades_through_every_level() {
    let mut db = filled_blog();
    assert_eq!(db.destroy("User", &user(1, "Ann", 30)), Ok(()));
    assert_eq!(id_list(&db.all("User").unwrap()), vec![num(2)]);
    assert_eq!(id_list(&db.all("Post").unwrap()), vec![txt("b")]);
    assert_eq!(id_list(&db.all("Comment").unwrap()), vec![num(11)]);
    assert_eq!(db.find("User", &num(1)), Ok(None));
    assert!(db.children("User", &user(1, "Ann", 30), "post_list").unwrap().is_empty());
}

#[test]
fn destroy_of_a_leaf_takes_only_the_leaf() {
    let mut db = filled_blog();
    assert_eq!(db.destroy("Comment", &comment(13, "a")), Ok(()));
    assert_eq!(db.all("User").unwrap().len(), 2);
    assert_eq!(db.all("Post").unwrap().len(), 3);
    assert_eq!(id_list(&db.all("Comment").unwrap()), vec![num(10), num(11), num(12)]);
}

#[test]
fn destroy_goes_by_the_id_alone() {
    let mut db = filled_blog();
    assert_eq!(db.destroy("Post", &Record::new(txt("a"))), Ok(()));
    assert_eq!(id_list(&db.all("Post").unwrap()), vec![txt("b"), txt("c")]);
    assert_eq!(id_list(&db.all("Comment").unwrap()), vec![num(11), num(12)]);
}

#[test]
fn destroy_of_an_unsaved_record_still_cascades() {
    let mut db = filled_blog();
    db.save("Post", post("z", "stray", 7)).unwrap();
    assert_eq!(db.destroy("User", &user(7, "Nobody", 1)), Ok(()));
    assert_eq!(db.all("User").unwrap().len(), 2);
    assert_eq!(id_list(&db.all("Post").unwrap()), vec![txt("a"), txt("b"), txt("c")]);
}

#[test]
fn parent_and_children_agree() {
    let db = filled_blog();
    let ann = db.find("User", &num(1)).unwrap().unwrap();
    let posts = db.children("User", &ann, "post_list").unwrap();
    assert_eq!(id_list(&posts), vec![txt("a"), txt("c")]);
    for post in &posts {
        assert_eq!(db.parent("Post", post, "user"), Ok(Some(ann.clone())));
    }
    let third = db.find("Post", &txt("c")).unwrap().unwrap();
    assert!(posts.contains(&third));
    let comments = db.children("Post", &third, "comment_list").unwrap();
    assert_eq!(id_list(&comments), vec![num(12)]);
    assert_eq!(db.parent("Comment", &comments[0], "post"), Ok(Some(third)));
}

#[test]
fn parent_that_is_not_stored_is_absent() {
    let mut db = blog();
    db.save("Post", post("a", "first", 1)).unwrap();
    assert_eq!(db.parent("Post", &post("a", "first", 1), "user"), Ok(None));
}

#[test]
fn unknown_type() {
    let mut db = blog();
    assert_eq!(db.all("Tag"), Err(AccessError::UnknownType));
    assert_eq!(db.find("Tag", &num(1)), Err(AccessError::UnknownType));
    assert_eq!(db.find_by("Tag", "find_by_name", &num(1)), Err(AccessError::UnknownType));
    assert_eq!(db.parent("Tag", &comment(1, "a"), "post"), Err(AccessError::UnknownType));
    assert_eq!(db.children("Tag", &comment(1, "a"), "post_list"), Err(AccessError::UnknownType));
    assert_eq!(db.save("Tag", comment(1, "a")), Err(AccessError::UnknownType));
    assert_eq!(db.destroy("Tag", &comment(1, "a")), Err(AccessError::UnknownType));
    assert_eq!(db.all("user"), Err(AccessError::UnknownType));
}

#[test]
fn unknown_method() {
    let db = filled_blog();
    let ann = user(1, "Ann", 30);
    assert_eq!(db.find_by("User", "find_by_id", &num(1)), Err(AccessError::UnknownMethod));
    assert_eq!(db.find_by("User", "find_by_title", &num(1)), Err(AccessError::UnknownMethod));
    assert_eq!(db.children("User", &ann, "comment_list"), Err(AccessError::UnknownMethod));
    assert_eq!(db.children("User", &ann, "post"), Err(AccessError::UnknownMethod));
    assert_eq!(db.parent("User", &ann, "post"), Err(AccessError::UnknownMethod));
    assert_eq!(
        db.parent("Post", &post("a", "first", 1), "user_id"),
        Err(AccessError::UnknownMethod)
    );
}

#[test]
fn relation_to_an_unregistered_type() {
    let mut db = Database::new();
    register(&mut db, declaration("Post", vec![field("user_id", true)], &["user"], &["comment"]));
    db.save("Post", post("a", "first", 1)).unwrap();
    let stored = db.find("Post", &txt("a")).unwrap().unwrap();
    assert_eq!(db.parent("Post", &stored, "user"), Err(AccessError::UnknownType));
    assert_eq!(db.children("Post", &stored, "comment_list"), Err(AccessError::UnknownType));
    assert_eq!(db.destroy("Post", &stored), Err(AccessError::UnknownType));
    assert_eq!(db.all("Post").unwrap().len(), 1);
}

#[test]
fn child_type_without_the_expected_finder() {
    let mut db = Database::new();
    register(&mut db, declaration("User", vec![], &[], &["post"]));
    register(&mut db, declaration("Post", vec![field("user_id", false)], &["user"], &[]));
    db.save("User", Record::new(num(1))).unwrap();
    db.save("Post", Record::new(txt("a")).with("user_id", num(1))).unwrap();
    assert_eq!(
        db.children("User", &Record::new(num(1)), "post_list"),
        Err(AccessError::UnknownMethod)
    );
    assert_eq!(db.destroy("User", &Record::new(num(1))), Err(AccessError::UnknownMethod));
    assert_eq!(db.all("User").unwrap().len(), 1);
    assert_eq!(db.all("Post").unwrap().len(), 1);
}

#[test]
fn record_without_the_foreign_key() {
    let db = filled_blog();
    assert_eq!(db.parent("Post", &Record::new(txt("a")), "user"), Err(AccessError::UnknownField));
}

#[test]
fn failed_cascade_keeps_what_it_did_not_reach() {
    let mut db = Database::new();
    register(&mut db, declaration("User", vec![], &[], &["post", "tag", "note"]));
    register(&mut db, declaration("Post", vec![field("user_id", true)], &[], &[]));
    register(&mut db, declaration("Note", vec![field("user_id", true)], &[], &[]));
    db.save("User", Record::new(num(1))).unwrap();
    db.save("Post", Record::new(num(10)).with("user_id", num(1))).unwrap();
    db.save("Post", Record::new(num(11)).with("user_id", num(1))).unwrap();
    db.save("Note", Record::new(num(20)).with("user_id", num(1))).unwrap();
    assert_eq!(db.destroy("User", &Record::new(num(1))), Err(AccessError::UnknownType));
    assert!(db.all("Post").unwrap().is_empty());
    assert_eq!(db.all("Note").unwrap().len(), 1);
    assert_eq!(db.all("User").unwrap().len(), 1);
}

#[test]
fn record_that_is_its_own_child() {
    let mut db = Database::new();
    register(&mut db, declaration("Node", vec![field("node_id", true)], &["node"], &["node"]));
    db.save("Node", Record::new(num(1)).with("node_id", num(1))).unwrap();
    assert_eq!(
        db.destroy("Node", &Record::new(num(1)).with("node_id", num(1))),
        Err(AccessError::TooDeep)
    );
    assert_eq!(db.all("Node").unwrap().len(), 1);
}

#[test]
fn two_records_that_are_each_other_s_child() {
    let mut db = Database::new();
    register(&mut db, declaration("Node", vec![field("node_id", true)], &["node"], &["node"]));
    db.save("Node", Record::new(num(1)).with("node_id", num(2))).unwrap();
    db.save("Node", Record::new(num(2)).with("node_id", num(1))).unwrap();
    assert_eq!(db.destroy("Node", &Record::new(num(1))), Err(AccessError::TooDeep));
}

#[test]
fn chain_of_one_type_is_destroyed_to_its_end() {
    let mut db = Database::new();
    register(&mut db, declaration("Node", vec![field("node_id", true)], &["node"], &["node"]));
    db.save("Node", Record::new(num(1)).with("node_id", num(0))).unwrap();
    db.save("Node", Record::new(num(2)).with("node_id", num(1))).unwrap();
    db.save("Node", Record::new(num(3)).with("node_id", num(2))).unwrap();
    db.save("Node", Record::new(num(4)).with("node_id", num(3))).unwrap();
    db.save("Node", Record::new(num(5)).with("node_id", num(9))).unwrap();
    assert_eq!(db.destroy("Node", &Record::new(num(1))), Ok(()));
    assert_eq!(id_list(&db.all("Node").unwrap()), vec![num(5)]);
}

#[test]
fn chain_below_an_unsaved_record() {
    let mut db = Database::new();
    register(&mut db, declaration("Node", vec![field("node_id", true)], &["node"], &["node"]));
    db.save("Node", Record::new(num(2)).with("node_id", num(1))).unwrap();
    db.save("Node", Record::new(num(3)).with("node_id", num(2))).unwrap();
    assert_eq!(db.destroy("Node", &Record::new(num(1))), Ok(()));
    assert!(db.all("Node").unwrap().is_empty());
}

#[test]
fn first_registration_keeps_the_name() {
    let mut db = Database::new();
    register(&mut db, declaration("User", vec![field("age", true)], &[], &[]));
    register(&mut db, declaration("User", vec![field("name", true)], &[], &[]));
    assert!(db.find_by("User", "find_by_age", &num(1)).unwrap().is_empty());
    assert_eq!(db.find_by("User", "find_by_name", &num(1)), Err(AccessError::UnknownMethod));
}

#[test]
fn fields_are_found_with_or_without_the_raw_marker() {
    let record = Record::new(num(1)).with("r#type", txt("admin")).with("name", txt("Ann"));
    assert_eq!(record.get("type"), Some(&txt("admin")));
    assert_eq!(record.get("r#type"), Some(&txt("admin")));
    assert_eq!(record.get("r#name"), Some(&txt("Ann")));
    assert_eq!(record.get("id"), Some(&num(1)));
    assert_eq!(record.get("r#id"), Some(&num(1)));
    assert_eq!(record.get("age"), None);
}

#[test]
fn first_entry_of_a_name_is_read() {
    let record = Record::new(num(1)).with("age", num(20)).with("age", num(30)).with("id", num(2));
    assert_eq!(record.get("age"), Some(&num(20)));
    assert_eq!(record.get("id"), Some(&num(1)));
}

#[test]
fn values_compare_and_copy() {
    assert!(num(1).same(&num(1)));
    assert!(!num(1).same(&num(2)));
    assert!(txt("a").same(&txt("a")));
    assert!(!txt("a").same(&txt("b")));
    assert!(!txt("1").same(&num(1)));
    assert_eq!(txt("a").duplicate(), txt("a"));
    let record = user(1, "Ann", 30);
    assert_eq!(record.duplicate(), record);
}

#[test]
fn table_functions() {
    let table = vec![user(1, "Ann", 30), user(2, "Bob", 20), user(3, "Cid", 30)];
    assert_eq!(position(&table, &num(2)), Some(1));
    assert_eq!(position(&table, &num(4)), None);
    assert_eq!(lookup(&table, &num(3)), Some(user(3, "Cid", 30)));
    assert_eq!(lookup(&table, &num(0)), None);
    assert_eq!(select(&table, "age", &num(30)), vec![user(1, "Ann", 30), user(3, "Cid", 30)]);
    assert_eq!(select(&table, "id", &num(2)), vec![user(2, "Bob", 20)]);
    assert!(select(&table, "size", &num(30)).is_empty());
    assert_eq!(copies(&table), table);
    assert_eq!(ids(&table), vec![num(1), num(2), num(3)]);
}
