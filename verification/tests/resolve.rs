use flp_rusty_model::metadata::{find_id_type, read, Declaration, FieldDecl, Shape};
use flp_rusty_model::plan::{child_accessors, derive_plan, finders, parent_accessors, Plan};
use flp_rusty_model::record::same_field;
use flp_rusty_model::resolve::{
    child_index, finder_index, link, parent_index, type_index, AccessError,
};
use flp_rusty_model::search::text_eq;

fn field(name: &str, ty: &str, findable: bool) -> FieldDecl {
    FieldDecl { name: name.to_string(), ty: ty.to_string(), findable }
}

fn plan(name: &str, fields: Vec<FieldDecl>, belongs_to: &[&str], has_many: &[&str]) -> Plan {
    let decl = Declaration {
        name: name.to_string(),
        shape: Shape::Record(fields),
        service: Some("service".to_string()),
        belongs_to: belongs_to.iter().map(|name| name.to_string()).collect(),
        has_many: has_many.iter().map(|name| name.to_string()).collect(),
    };
    derive_plan(&read(decl).unwrap())
}

fn plans() -> Vec<Plan> {
    vec![
        plan(
            "User",
            vec![field("id", "u64", false), field("name", "String", true)],
            &[],
            &["post", "note", "tag"],
        ),
        plan(
            "Post",
            vec![field("id", "String", false), field("user_id", "u64", true)],
            &["user", "blog"],
            &[],
        ),
        plan("Note", vec![field("id", "u64", false), field("user_id", "u64", false)], &[], &[]),
    ]
}

#[test]
fn texts_are_compared_by_content() {
    assert!(text_eq("user", "user"));
    assert!(!text_eq("user", "User"));
    assert!(!text_eq("user", "users"));
    assert!(text_eq("", ""));
}

#[test]
fn field_names_are_compared_without_the_raw_marker() {
    assert!(same_field("r#type", "type"));
    assert!(same_field("type", "type"));
    assert!(!same_field("type", "types"));
    assert!(!same_field("r#r#type", "type"));
}

#[test]
fn id_type_is_that_of_the_first_id_field() {
    let fields = vec![field("name", "String", true), field("id", "u64", false)];
    assert_eq!(find_id_type(&fields), Some("u64".to_string()));
    assert_eq!(find_id_type(&vec![field("name", "String", true)]), None);
    assert_eq!(find_id_type(&vec![]), None);
}

#[test]
fn accessors_are_built_in_declaration_order() {
    let fields = vec![
        field("id", "u64", true),
        field("name", "String", false),
        field("age", "u8", true),
    ];
    let methods: Vec<String> = finders(&fields).into_iter().map(|finder| finder.method).collect();
    assert_eq!(methods, vec!["find_by_id", "find_by_age"]);
    let relations = vec!["user".to_string(), "blogPost".to_string()];
    let methods: Vec<String> =
        parent_accessors(&relations).into_iter().map(|parent| parent.method).collect();
    assert_eq!(methods, vec!["user", "blog_post"]);
    let children = child_accessors(&relations, "SiteAdmin");
    assert_eq!(children[0].method, "user_list");
    assert_eq!(children[1].method, "blog_post_list");
    assert_eq!(children[1].target, "BlogPost");
    assert_eq!(children[0].finder, "find_by_site_admin_id");
    assert_eq!(children[1].finder, "find_by_site_admin_id");
}

#[test]
fn names_resolve_to_the_first_match() {
    let plans = plans();
    assert_eq!(type_index(&plans, "Post"), Some(1));
    assert_eq!(type_index(&plans, "post"), None);
    assert_eq!(finder_index(&plans[0], "find_by_name"), Some(0));
    assert_eq!(finder_index(&plans[0], "find_by_id"), None);
    assert_eq!(parent_index(&plans[1], "blog"), Some(1));
    assert_eq!(parent_index(&plans[1], "post"), None);
    assert_eq!(child_index(&plans[0], "note_list"), Some(1));
    assert_eq!(child_index(&plans[0], "note"), None);
}

#[test]
fn child_links() {
    let plans = plans();
    assert_eq!(link(&plans, &plans[0].children[0]), Ok((1, "user_id".to_string())));
    assert_eq!(link(&plans, &plans[0].children[1]), Err(AccessError::UnknownMethod));
    assert_eq!(link(&plans, &plans[0].children[2]), Err(AccessError::UnknownType));
}
