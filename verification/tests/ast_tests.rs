use edit_counter::{parse_rust_items, CodeItemKind};

    #[test]
    fn test_parse_struct_and_impl_methods() {
        let code = "
pub struct UserAuth {
    pub username: String,
}

impl UserAuth {
    pub fn login(&self) -> bool {
        true
    }

    pub fn logout(&self) {}
}
";
        let items = parse_rust_items(code);
        assert_eq!(items.len(), 3);

        assert_eq!(items[0].name, "UserAuth");
        assert_eq!(items[0].kind, CodeItemKind::Class);
        assert_eq!(items[0].line, Some(2));
        assert!(items[0].parent.is_none());

        assert_eq!(items[1].name, "login");
        assert_eq!(items[1].kind, CodeItemKind::Function);
        assert_eq!(items[1].line, Some(7));
        assert_eq!(items[1].parent.as_deref(), Some("UserAuth"));

        assert_eq!(items[2].name, "logout");
        assert_eq!(items[2].kind, CodeItemKind::Function);
        assert_eq!(items[2].line, Some(11));
        assert_eq!(items[2].parent.as_deref(), Some("UserAuth"));
    }

    #[test]
    fn test_parse_enum_trait_and_functions() {
        let code = "
pub enum Status {
    Active,
    Inactive,
}

pub trait Authenticatable {
    fn verify(&self) -> bool;
}

pub fn global_helper() -> i32 {
    42
}
";
        let items = parse_rust_items(code);
        assert_eq!(items.len(), 4);

        assert_eq!(items[0].name, "Status");
        assert_eq!(items[0].kind, CodeItemKind::Class);
        assert_eq!(items[0].line, Some(2));

        assert_eq!(items[1].name, "Authenticatable");
        assert_eq!(items[1].kind, CodeItemKind::Class);
        assert_eq!(items[1].line, Some(7));

        assert_eq!(items[2].name, "verify");
        assert_eq!(items[2].kind, CodeItemKind::Function);
        assert_eq!(items[2].line, Some(8));
        assert_eq!(items[2].parent.as_deref(), Some("Authenticatable"));

        assert_eq!(items[3].name, "global_helper");
        assert_eq!(items[3].kind, CodeItemKind::Function);
        assert_eq!(items[3].line, Some(11));
    }

    #[test]
    fn test_invalid_rust_returns_empty() {
        let items = parse_rust_items("This is not valid rust code {{{");
        assert!(items.is_empty());
    }

#[test]
fn trait_text_leaves_out_its_functions() {
    let items = parse_rust_items("pub trait Shape: Clone {\n    type Unit;\n    fn area(&self) -> u32 { 7 }\n}\n");
    assert_eq!(items.len(), 2);
    assert_eq!(items[0].name, "Shape");
    assert_eq!(items[0].kind, CodeItemKind::Class);
    assert!(items[0].tokens.contains("Clone"));
    assert!(items[0].tokens.contains("type Unit"));
    assert!(!items[0].tokens.contains("area"));
    assert_eq!(items[1].name, "area");
    assert_eq!(items[1].parent.as_deref(), Some("Shape"));
    assert_eq!(items[1].line, Some(3));
    assert!(items[1].tokens.contains("7"));
}

#[test]
fn inline_modules_are_followed() {
    let items = parse_rust_items("mod outer {\n    mod inner {\n        pub struct Deep;\n    }\n    pub fn mid() {}\n}\nmod elsewhere;\n");
    assert_eq!(items.len(), 2);
    assert_eq!(items[0].name, "Deep");
    assert_eq!(items[0].line, Some(3));
    assert_eq!(items[1].name, "mid");
    assert_eq!(items[1].line, Some(5));
}
