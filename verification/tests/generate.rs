use flp_rusty_model::metadata::{read, Declaration, FieldDecl, GenerateError, Shape};
use flp_rusty_model::rusty_model::handle;

fn field(name: &str, ty: &str, findable: bool) -> FieldDecl {
    FieldDecl { name: name.to_string(), ty: ty.to_string(), findable }
}

fn user() -> Declaration {
    Declaration {
        name: "User".to_string(),
        shape: Shape::Record(vec![
            field("id", "u64", false),
            field("name", "String", true),
            field("age", "u8", true),
        ]),
        service: Some("user_service".to_string()),
        belongs_to: vec![],
        has_many: vec!["post".to_string()],
    }
}

fn post() -> Declaration {
    Declaration {
        name: "Post".to_string(),
        shape: Shape::Record(vec![
            field("id", "String", false),
            field("title", "String", true),
            field("user_id", "u64", true),
        ]),
        service: Some("post_service".to_string()),
        belongs_to: vec!["user".to_string()],
        has_many: vec![],
    }
}

#[test]
fn user_impl_text() {
    let expected = "impl User {
    pub fn find_by_name(value: &String) -> Vec<Self> {
        Self::all().into_iter().filter(|a| &a.name == value).collect()
    }
    pub fn find_by_age(value: &u8) -> Vec<Self> {
        Self::all().into_iter().filter(|a| &a.age == value).collect()
    }
    pub fn post_list(&self) -> Vec<Post> {
        Post::find_by_user_id(&self.id)
    }
    pub fn all() -> Vec<Self> {
        user_service::all()
    }
    #[allow(clippy::ptr_arg)]
    pub fn find(id: &u64) -> Option<Self> {
        user_service::find(id)
    }
    pub fn save(self) -> std::result::Result<Self, user_service::SaveError> {
        user_service::save(self)
    }
    pub fn destroy(self) -> std::result::Result<(), user_service::DestroyError> {
        for child in self.post_list().into_iter() {
            child.destroy()?;
        }
        user_service::destroy(&self.id)
    }
}
";
    assert_eq!(handle(user()), Ok(expected.to_string()));
}

#[test]
fn post_impl_text() {
    let expected = "impl Post {
    pub fn find_by_title(value: &String) -> Vec<Self> {
        Self::all().into_iter().filter(|a| &a.title == value).collect()
    }
    pub fn find_by_user_id(value: &u64) -> Vec<Self> {
        Self::all().into_iter().filter(|a| &a.user_id == value).collect()
    }
    pub fn user(&self) -> Option<User> {
        User::find(&self.user_id)
    }
    pub fn all() -> Vec<Self> {
        post_service::all()
    }
    #[allow(clippy::ptr_arg)]
    pub fn find(id: &String) -> Option<Self> {
        post_service::find(id)
    }
    pub fn save(self) -> std::result::Result<Self, post_service::SaveError> {
        post_service::save(self)
    }
    pub fn destroy(self) -> std::result::Result<(), post_service::DestroyError> {
        post_service::destroy(&self.id)
    }
}
";
    assert_eq!(handle(post()), Ok(expected.to_string()));
}

#[test]
fn missing_service_is_wrong_options() {
    let mut decl = user();
    decl.service = None;
    assert_eq!(handle(decl), Err(GenerateError::WrongOptions));
}

#[test]
fn enum_is_not_supported() {
    let mut decl = user();
    decl.shape = Shape::Enum;
    assert_eq!(handle(decl), Err(GenerateError::OnlyStructSupported));
}

#[test]
fn missing_id_is_reported() {
    let mut decl = user();
    decl.shape = Shape::Record(vec![field("name", "String", true)]);
    assert_eq!(read(decl), Err(GenerateError::IdNotFound));
}

#[test]
fn error_messages() {
    assert_eq!(GenerateError::WrongOptions.message(), "Wrong options");
    assert_eq!(GenerateError::OnlyStructSupported.message(), "Only struct is supported");
    assert_eq!(GenerateError::IdNotFound.message(), "Id not found");
}

#[test]
fn tuple_struct_and_union_are_not_supported() {
    let mut decl = user();
    decl.shape = Shape::Tuple;
    assert_eq!(read(decl), Err(GenerateError::OnlyStructSupported));
    let mut decl = user();
    decl.shape = Shape::Union;
    assert_eq!(read(decl), Err(GenerateError::OnlyStructSupported));
}

#[test]
fn unit_struct_has_no_id() {
    let mut decl = user();
    decl.shape = Shape::Record(vec![]);
    assert_eq!(read(decl), Err(GenerateError::IdNotFound));
}

#[test]
fn missing_service_comes_before_the_shape() {
    let mut decl = user();
    decl.service = None;
    decl.shape = Shape::Enum;
    assert_eq!(read(decl), Err(GenerateError::WrongOptions));
}

#[test]
fn shape_comes_before_the_id() {
    let mut decl = user();
    decl.shape = Shape::Tuple;
    assert_eq!(handle(decl), Err(GenerateError::OnlyStructSupported));
}

#[test]
fn read_keeps_the_declaration() {
    let model = read(post()).unwrap();
    assert_eq!(model.name, "Post");
    assert_eq!(model.service, "post_service");
    assert_eq!(model.id_type, "String");
    assert_eq!(model.fields.len(), 3);
    assert_eq!(model.belongs_to, vec!["user".to_string()]);
    assert!(model.has_many.is_empty());
}

#[test]
fn id_may_be_any_field_and_a_raw_identifier() {
    let mut decl = user();
    decl.shape = Shape::Record(vec![field("name", "String", false), field("r#id", "Uuid", false)]);
    assert_eq!(read(decl).unwrap().id_type, "Uuid");
}

#[test]
fn first_id_field_gives_the_id_type() {
    let mut decl = user();
    decl.shape = Shape::Record(vec![field("id", "u64", false), field("r#id", "String", false)]);
    assert_eq!(read(decl).unwrap().id_type, "u64");
}

#[test]
fn id_is_matched_exactly() {
    let mut decl = user();
    decl.shape = Shape::Record(vec![field("Id", "u64", false), field("ids", "u64", false)]);
    assert_eq!(read(decl), Err(GenerateError::IdNotFound));
}

#[test]
fn plan_lists_only_findable_fields() {
    let plan = flp_rusty_model::plan::derive_plan(&read(user()).unwrap());
    let methods: Vec<&str> = plan.finders.iter().map(|finder| finder.method.as_str()).collect();
    assert_eq!(methods, vec!["find_by_name", "find_by_age"]);
    assert_eq!(plan.id_type, "u64");
    assert_eq!(plan.parents.len(), 0);
    assert_eq!(plan.children.len(), 1);
}

#[test]
fn findable_id_gets_a_finder() {
    let mut decl = user();
    decl.shape = Shape::Record(vec![field("id", "u64", true)]);
    let text = handle(decl).unwrap();
    assert!(text.contains("pub fn find_by_id(value: &u64) -> Vec<Self>"));
}

#[test]
fn raw_field_keeps_its_marker_in_the_access() {
    let mut decl = user();
    decl.shape = Shape::Record(vec![field("id", "u64", false), field("r#type", "String", true)]);
    let text = handle(decl).unwrap();
    assert!(text.contains("pub fn find_by_type(value: &String) -> Vec<Self>"));
    assert!(text.contains("filter(|a| &a.r#type == value)"));
}

#[test]
fn no_relations_and_no_finders() {
    let decl = Declaration {
        name: "Tag".to_string(),
        shape: Shape::Record(vec![field("id", "u32", false)]),
        service: Some("crate::tags".to_string()),
        belongs_to: vec![],
        has_many: vec![],
    };
    let expected = "impl Tag {
    pub fn all() -> Vec<Self> {
        crate::tags::all()
    }
    #[allow(clippy::ptr_arg)]
    pub fn find(id: &u32) -> Option<Self> {
        crate::tags::find(id)
    }
    pub fn save(self) -> std::result::Result<Self, crate::tags::SaveError> {
        crate::tags::save(self)
    }
    pub fn destroy(self) -> std::result::Result<(), crate::tags::DestroyError> {
        crate::tags::destroy(&self.id)
    }
}
";
    assert_eq!(handle(decl), Ok(expected.to_string()));
}

#[test]
fn destroy_cascades_in_declaration_order() {
    let mut decl = user();
    decl.has_many = vec!["post".to_string(), "blogComment".to_string()];
    let text = handle(decl).unwrap();
    let destroy = text.find("pub fn destroy(self)").unwrap();
    let posts = text[destroy..].find("for child in self.post_list().into_iter()").unwrap();
    let comments =
        text[destroy..].find("for child in self.blog_comment_list().into_iter()").unwrap();
    let own = text[destroy..].find("user_service::destroy(&self.id)").unwrap();
    assert!(posts < comments);
    assert!(comments < own);
    assert!(text.contains("BlogComment::find_by_user_id(&self.id)"));
}

#[test]
fn colliding_relations_are_both_written() {
    let mut decl = post();
    decl.belongs_to = vec!["user".to_string(), "User".to_string()];
    let text = handle(decl).unwrap();
    assert_eq!(text.matches("pub fn user(&self) -> Option<User>").count(), 2);
}

#[test]
fn entry_point_is_handle() {
    assert_eq!(flp_rusty_model::rusty_model(user()), handle(user()));
    let mut decl = user();
    decl.service = None;
    assert_eq!(flp_rusty_model::rusty_model(decl), Err(GenerateError::WrongOptions));
}

#[test]
fn generated_text_lexes_to_the_expected_tokens() {
    let text = handle(post()).unwrap();
    let tokens: proc_macro2::TokenStream = text.parse().unwrap();
    let expected: proc_macro2::TokenStream = "impl Post {
        pub fn find_by_title(value: &String) -> Vec<Self> {
            Self::all().into_iter().filter(|a| &a.title == value).collect()
        }
        pub fn find_by_user_id(value: &u64) -> Vec<Self> {
            Self::all().into_iter().filter(|a| &a.user_id == value).collect()
        }
        pub fn user(&self) -> Option<User> { User::find(&self.user_id) }
        pub fn all() -> Vec<Self> { post_service::all() }
        #[allow(clippy::ptr_arg)]
        pub fn find(id: &String) -> Option<Self> { post_service::find(id) }
        pub fn save(self) -> std::result::Result<Self, post_service::SaveError> {
            post_service::save(self)
        }
        pub fn destroy(self) -> std::result::Result<(), post_service::DestroyError> {
            post_service::destroy(&self.id)
        }
    }"
    .parse()
    .unwrap();
    assert_eq!(tokens.to_string(), expected.to_string());
}

fn method_names(text: &str) -> Vec<String> {
    let block: syn::ItemImpl = syn::parse_str(text).unwrap();
    block
        .items
        .iter()
        .map(|item| match item {
            syn::ImplItem::Fn(method) => method.sig.ident.to_string(),
            _ => panic!("not a method"),
        })
        .collect()
}

#[test]
fn generated_text_parses_as_an_impl_block() {
    let text = handle(user()).unwrap();
    assert_eq!(
        method_names(&text),
        vec!["find_by_name", "find_by_age", "post_list", "all", "find", "save", "destroy"]
    );
    let text = handle(post()).unwrap();
    assert_eq!(
        method_names(&text),
        vec!["find_by_title", "find_by_user_id", "user", "all", "find", "save", "destroy"]
    );
}

#[test]
fn types_and_paths_are_written_as_given() {
    let decl = Declaration {
        name: "Entry".to_string(),
        shape: Shape::Record(vec![
            field("id", "(u32 , u32)", false),
            field("tags", "Vec < String >", true),
            field("owner", "& 'static str", true),
        ]),
        service: Some(":: store :: entries".to_string()),
        belongs_to: vec![],
        has_many: vec![],
    };
    let text = handle(decl).unwrap();
    assert_eq!(
        method_names(&text),
        vec!["find_by_tags", "find_by_owner", "all", "find", "save", "destroy"]
    );
    assert!(text.contains("pub fn find(id: &(u32 , u32)) -> Option<Self>"));
    assert!(text.contains("pub fn find_by_tags(value: &Vec < String >) -> Vec<Self>"));
    assert!(text.contains(":: store :: entries::destroy(&self.id)"));
}
