use flp_rusty_model::naming::{finder_name, key_name, list_name, unraw};
use flp_rusty_model::plan::{
    child_accessor, child_accessor_from, owner_finder, parent_accessor, parent_accessor_from,
    ChildAccessor, ParentAccessor,
};

#[test]
fn unraw_strips_the_raw_marker() {
    assert_eq!(unraw("r#type"), "type");
    assert_eq!(unraw("name"), "name");
    assert_eq!(unraw("r#"), "");
    assert_eq!(unraw("r"), "r");
    assert_eq!(unraw(""), "");
    assert_eq!(unraw("xr#y"), "xr#y");
}

#[test]
fn finder_name_takes_the_field_as_declared() {
    assert_eq!(finder_name("age"), "find_by_age");
    assert_eq!(finder_name("userId"), "find_by_userId");
    assert_eq!(finder_name("r#type"), "find_by_type");
}

#[test]
fn key_and_list_names_add_their_suffix() {
    assert_eq!(key_name("user"), "user_id");
    assert_eq!(list_name("post"), "post_list");
    assert_eq!(owner_finder("user"), "find_by_user_id");
}

#[test]
fn parent_accessor_from_case_forms() {
    assert_eq!(
        parent_accessor_from("blog_post".to_string(), "BlogPost".to_string()),
        ParentAccessor {
            method: "blog_post".to_string(),
            target: "BlogPost".to_string(),
            key: "blog_post_id".to_string(),
        }
    );
}

#[test]
fn child_accessor_from_case_forms() {
    assert_eq!(
        child_accessor_from(
            "blog_post".to_string(),
            "BlogPost".to_string(),
            "user_account".to_string()
        ),
        ChildAccessor {
            method: "blog_post_list".to_string(),
            target: "BlogPost".to_string(),
            finder: "find_by_user_account_id".to_string(),
        }
    );
}

#[test]
fn parent_accessor_converts_the_relation_name() {
    let accessor = parent_accessor("blogPost");
    assert_eq!(accessor.method, "blog_post");
    assert_eq!(accessor.target, "BlogPost");
    assert_eq!(accessor.key, "blog_post_id");
}

#[test]
fn parent_accessor_of_free_text() {
    let accessor = parent_accessor("blog post");
    assert_eq!(accessor.method, "blog_post");
    assert_eq!(accessor.target, "BlogPost");
}

#[test]
fn child_accessor_converts_relation_and_owner() {
    let accessor = child_accessor("blog-post", "UserAccount");
    assert_eq!(accessor.method, "blog_post_list");
    assert_eq!(accessor.target, "BlogPost");
    assert_eq!(accessor.finder, "find_by_user_account_id");
}

#[test]
fn lower_case_relation_names_keep_their_snake_form() {
    let accessor = child_accessor("post", "User");
    assert_eq!(accessor.method, "post_list");
    assert_eq!(accessor.target, "Post");
    assert_eq!(accessor.finder, "find_by_user_id");
}
