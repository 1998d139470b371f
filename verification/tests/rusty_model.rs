use flp_rusty_model::database::Database;
use flp_rusty_model::metadata::{read, Declaration, FieldDecl, Shape};
use flp_rusty_model::plan::derive_plan;
use flp_rusty_model::record::{Record, Value};

fn field(name: &str, ty: &str, findable: bool) -> FieldDecl {
    FieldDecl { name: name.to_string(), ty: ty.to_string(), findable }
}

fn user_declaration() -> Declaration {
    Declaration {
        name: "User".to_string(),
        shape: Shape::Record(vec![
            field("id", "u64", false),
            field("name", "String", true),
            field("age", "u8", true),
        ]),
        service: Some("user_service".to_string()),
        belongs_to: vec![],
        has_many: vec!["post".to_string()],
    }
}

fn post_declaration() -> Declaration {
    Declaration {
        name: "Post".to_string(),
        shape: Shape::Record(vec![
            field("id", "String", false),
            field("title", "String", true),
            field("user_id", "u64", true),
        ]),
        service: Some("post_service".to_string()),
        belongs_to: vec!["user".to_string()],
        has_many: vec![],
    }
}

fn user(id: u64, name: &str, age: u8) -> Record {
    Record::new(Value::Int(id))
        .with("name", Value::Text(name.to_string()))
        .with("age", Value::Int(age as u64))
}

fn post(id: &str, title: &str, user_id: u64) -> Record {
    Record::new(Value::Text(id.to_string()))
        .with("title", Value::Text(title.to_string()))
        .with("user_id", Value::Int(user_id))
}

fn text(record: &Record, name: &str) -> String {
    match record.get(name) {
        Some(Value::Text(text)) => text.clone(),
        other => panic!("no text in {}: {:?}", name, other),
    }
}

fn setup() -> Database {
    let mut db = Database::new();
    db.register(derive_plan(&read(user_declaration()).unwrap()));
    db.register(derive_plan(&read(post_declaration()).unwrap()));
    db.save("User", user(1, "Test User", 20)).unwrap();
    db.save("Post", post("1234abcd", "Test post", 1)).unwrap();
    db
}

#[test]
fn find() {
    let db = setup();
    let user = db.find("User", &Value::Int(1)).unwrap().map(|user| text(&user, "name"));
    assert_eq!(user, Some("Test User".to_string()));
}

#[test]
fn all() {
    let db = setup();
    let user = db.all("User").unwrap().into_iter().next().map(|user| text(&user, "name"));
    assert_eq!(user, Some("Test User".to_string()));
}

#[test]
fn save() {
    let mut db = setup();
    db.save("User", user(2, "Test User2", 40)).unwrap();
    let user = db.find("User", &Value::Int(2)).unwrap().map(|user| text(&user, "name"));
    assert_eq!(user, Some("Test User2".to_string()));
}

#[test]
fn destroy() {
    let mut db = setup();
    let user = db.find("User", &Value::Int(1)).unwrap().unwrap();
    db.destroy("User", &user).unwrap();
    assert_eq!(db.all("User").unwrap().len(), 0);
    assert_eq!(db.all("Post").unwrap().len(), 0);
}

#[test]
fn find_by() {
    let db = setup();
    let user = db
        .find_by("User", "find_by_age", &Value::Int(20))
        .unwrap()
        .into_iter()
        .next()
        .map(|user| text(&user, "name"));
    assert_eq!(user, Some("Test User".to_string()));
}

#[test]
fn children() {
    let db = setup();
    let user = db.find("User", &Value::Int(1)).unwrap().unwrap();
    let post = db
        .children("User", &user, "post_list")
        .unwrap()
        .into_iter()
        .next()
        .map(|post| text(&post, "title"));
    assert_eq!(post, Some("Test post".to_string()));
}

#[test]
fn parent() {
    let db = setup();
    let post = db.find("Post", &Value::Text("1234abcd".to_string())).unwrap().unwrap();
    let user = db.parent("Post", &post, "user").unwrap().map(|user| text(&user, "name"));
    assert_eq!(user, Some("Test User".to_string()));
}
