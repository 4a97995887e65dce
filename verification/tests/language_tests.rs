use edit_counter::{language_of_path, parse_items, parse_items_for_path, CodeItemKind, Language};

#[test]
fn languages_by_extension() {
    assert_eq!(language_of_path("src/lib.rs"), Language::Rust);
    assert_eq!(language_of_path("a/b.py"), Language::Python);
    assert_eq!(language_of_path("lib/x.rb"), Language::Ruby);
    assert_eq!(language_of_path("x.mjs"), Language::JavaScript);
    assert_eq!(language_of_path("x.tsx"), Language::TypeScript);
    assert_eq!(language_of_path("X.java"), Language::Java);
    assert_eq!(language_of_path("X.cs"), Language::CSharp);
    assert_eq!(language_of_path("x.hpp"), Language::Cpp);
    assert_eq!(language_of_path("x.go"), Language::Go);
    assert_eq!(language_of_path("x.php"), Language::Php);
    assert_eq!(language_of_path("x.swift"), Language::Swift);
    assert_eq!(language_of_path("x.kt"), Language::Kotlin);
    assert_eq!(language_of_path("README.md"), Language::Unknown);
    assert_eq!(language_of_path("Makefile"), Language::Unknown);
    assert_eq!(language_of_path("dir.rs/Makefile"), Language::Unknown);
}

#[test]
fn go_method_parent_is_receiver() {
    let code = "package s\n\ntype Server struct {\n    port int\n}\n\nfunc (s *Server) Start() {\n}\n\nfunc Helper() {}\n";
    let items = parse_items(code, Language::Go);
    assert_eq!(items.len(), 3);
    assert_eq!(items[0].name, "Server");
    assert_eq!(items[0].kind, CodeItemKind::Class);
    assert_eq!(items[0].line, Some(3));
    assert_eq!(items[1].name, "Start");
    assert_eq!(items[1].parent.as_deref(), Some("Server"));
    assert_eq!(items[1].line, Some(7));
    assert_eq!(items[2].name, "Helper");
    assert_eq!(items[2].parent, None);
}

#[test]
fn python_methods_belong_to_class() {
    let code = "class A:\n    def f(self):\n        def inner():\n            pass\n        return 1\n\n    async def g(self):\n        pass\n\ndef top():\n    pass\n";
    let items = parse_items_for_path("m.py", code);
    let names: Vec<&str> = items.iter().map(|i| i.name.as_str()).collect();
    assert_eq!(names, vec!["A", "f", "g", "top"]);
    assert_eq!(items[1].parent.as_deref(), Some("A"));
    assert_eq!(items[2].parent.as_deref(), Some("A"));
    assert_eq!(items[3].parent, None);
    assert_eq!(items[0].tokens, "class A:\n");
}

#[test]
fn ruby_self_method_and_module() {
    let code = "module Billing\n  class Invoice\n    def self.build(x)\n      new(x)\n    end\n\n    def total\n      0\n    end\n  end\nend\n";
    let items = parse_items_for_path("lib/billing.rb", code);
    let names: Vec<&str> = items.iter().map(|i| i.name.as_str()).collect();
    assert_eq!(names, vec!["Invoice", "build", "total"]);
    assert_eq!(items[1].parent.as_deref(), Some("Invoice"));
    assert_eq!(items[0].tokens, "class Invoice\nend\n");
}

#[test]
fn cpp_scoped_definition_and_enum_class() {
    let code = "enum class Color { Red, Green };\n\nclass Engine {\npublic:\n    void stop();\n};\n\nvoid Engine::stop() {\n    halt();\n}\n";
    let items = parse_items_for_path("e.cpp", code);
    let names: Vec<&str> = items.iter().map(|i| i.name.as_str()).collect();
    assert_eq!(names, vec!["Engine", "stop"]);
    assert_eq!(items[1].parent.as_deref(), Some("Engine"));
}

#[test]
fn kotlin_and_swift_declarations() {
    let kt = "data class User(val id: Int) {\n    fun greet() {\n    }\n}\n\nfun main() {\n}\n";
    let items = parse_items_for_path("U.kt", kt);
    let names: Vec<&str> = items.iter().map(|i| i.name.as_str()).collect();
    assert_eq!(names, vec!["User", "greet", "main"]);
    let sw = "protocol Shape {\n}\n\nfinal class Circle: Shape {\n    init(r: Double) {\n    }\n    func area() -> Double {\n        return 0\n    }\n}\n";
    let items = parse_items_for_path("S.swift", sw);
    let names: Vec<&str> = items.iter().map(|i| i.name.as_str()).collect();
    assert_eq!(names, vec!["Shape", "Circle", "init", "area"]);
    assert_eq!(items[3].parent.as_deref(), Some("Circle"));
}

#[test]
fn braces_in_strings_and_comments_do_not_count() {
    let js = "class A {\n    m() {\n        const s = \"}\";\n        // }\n    }\n    n() {}\n}\n";
    let items = parse_items_for_path("a.js", js);
    let names: Vec<&str> = items.iter().map(|i| i.name.as_str()).collect();
    assert_eq!(names, vec!["A", "m", "n"]);
    assert_eq!(items[2].parent.as_deref(), Some("A"));
}

#[test]
fn rust_nested_module_and_trait_items() {
    let code = "mod inner {\n    pub enum E { A }\n    pub trait T {\n        fn f(&self);\n        const C: u8;\n    }\n}\nmod outside;\nunion U { a: u8 }\n";
    let items = parse_items_for_path("lib.rs", code);
    let names: Vec<&str> = items.iter().map(|i| i.name.as_str()).collect();
    assert_eq!(names, vec!["E", "T", "f", "U"]);
    assert_eq!(items[2].parent.as_deref(), Some("T"));
    assert_eq!(items[2].line, Some(4));
    assert_eq!(items[3].kind, CodeItemKind::Class);
}
