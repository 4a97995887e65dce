use edit_counter::analyzer::analyze_file_diff;
use edit_counter::changes::{
    build_report, is_rust_source, reads_new_version, reads_old_version, DeltaStatus, DiffConfig, FileChange,
};
use edit_counter::{compare_items, parse_items_for_path, EditKind};

fn no_ignores() -> DiffConfig {
    DiffConfig { find_renames: false, rename_threshold: None, ignore_patterns: Vec::new() }
}

fn change(path: &str, old: Option<&str>, new: Option<&str>) -> FileChange {
    FileChange {
        path: path.to_string(),
        old_content: old.map(|s| s.to_string()),
        new_content: new.map(|s| s.to_string()),
    }
}

#[test]
fn report_new_feature_file() {
    let auth = "\npub struct UserAuth {\n    pub username: String,\n}\n\nimpl UserAuth {\n    pub fn login(&self) -> bool {\n        true\n    }\n\n    pub fn logout(&self) {}\n}\n";
    let report = build_report(&[change("src/auth.rs", None, Some(auth))], &no_ignores()).unwrap();
    assert_eq!(report.total_edits, 4);
    assert_eq!(report.files_added, 1);
    assert_eq!(report.classes_added, 1);
    assert_eq!(report.functions_added, 2);
    assert_eq!(report.files_modified, 0);
    assert_eq!(report.files_deleted, 0);
    assert_eq!(report.events.len(), 4);
}

#[test]
fn report_typescript_interface_and_class() {
    let ts = "\nexport interface UserDTO {\n    id: string;\n}\n\nexport class UserService {\n    fetchUser(id: string): UserDTO {\n        return { id };\n    }\n}\n";
    let report = build_report(&[change("src/user.ts", None, Some(ts))], &no_ignores()).unwrap();
    assert_eq!(report.files_added, 1);
    assert_eq!(report.classes_added, 2);
    assert_eq!(report.functions_added, 1);
    assert_eq!(report.total_edits, 4);
}

#[test]
fn report_python_refactor() {
    let v1 = "\nclass TaskRunner:\n    def run(self):\n        print(\"v1\")\n";
    let v2 = "\nclass TaskRunner:\n    def run(self):\n        print(\"v2\")\n\n    def cancel(self):\n        pass\n";
    let report = build_report(&[change("tasks.py", Some(v1), Some(v2))], &no_ignores()).unwrap();
    assert_eq!(report.files_modified, 1);
    assert_eq!(report.functions_modified, 1);
    assert_eq!(report.functions_added, 1);
    assert_eq!(report.total_edits, 3);
}

#[test]
fn report_csharp_namespace_constructor() {
    let cs = "\nnamespace MyApp\n{\n    public class OrderController\n    {\n        public OrderController() {}\n        public void Process() {}\n    }\n}\n";
    let report = build_report(&[change("Controllers/OrderController.cs", None, Some(cs))], &no_ignores()).unwrap();
    assert_eq!(report.files_added, 1);
    assert_eq!(report.classes_added, 1);
    assert_eq!(report.functions_added, 2);
    assert_eq!(report.total_edits, 4);
}

#[test]
fn report_javascript_arrow_function() {
    let js = "\nclass AuthHelper {\n    login() {}\n}\n\nconst check = () => true;\n";
    let report = build_report(&[change("auth.js", None, Some(js))], &no_ignores()).unwrap();
    assert_eq!(report.files_added, 1);
    assert_eq!(report.classes_added, 1);
    assert_eq!(report.functions_added, 2);
    assert_eq!(report.total_edits, 4);
}

#[test]
fn report_sums_over_files() {
    let old = "pub fn a() {}\n";
    let new = "pub fn a() { let x = 1; }\n";
    let gone = "pub struct OldWidget;\n\npub fn draw_widget() {}\n";
    let changes = [
        change("src/a.rs", Some(old), Some(new)),
        change("src/old_widget.rs", Some(gone), None),
        change("README.md", None, Some("# hi")),
    ];
    let report = build_report(&changes, &no_ignores()).unwrap();
    assert_eq!(report.total_edits, 2 + 3 + 1);
    assert_eq!(report.files_modified, 1);
    assert_eq!(report.functions_modified, 1);
    assert_eq!(report.files_deleted, 1);
    assert_eq!(report.classes_deleted, 1);
    assert_eq!(report.functions_deleted, 1);
    assert_eq!(report.files_added, 1);
    assert_eq!(report.events[0].kind, EditKind::FileModified);
    assert_eq!(report.events[2].kind, EditKind::FileDeleted);
    assert_eq!(report.events[5].kind, EditKind::FileAdded);
    assert_eq!(report.events[5].file, "README.md");
}

#[test]
fn report_leaves_out_ignored_files() {
    let config = DiffConfig {
        find_renames: false,
        rename_threshold: None,
        ignore_patterns: vec!["vendor/".to_string(), "*.min.js".to_string()],
    };
    let changes = [
        change("vendor/lib/x.rs", None, Some("pub fn x() {}")),
        change("web/app.min.js", None, Some("function f() {}")),
        change("src/keep.rs", None, Some("pub fn keep() {}")),
    ];
    let report = build_report(&changes, &config).unwrap();
    assert_eq!(report.total_edits, 2);
    assert_eq!(report.events[1].symbol.as_deref(), Some("keep"));
}

#[test]
fn ignore_pattern_forms() {
    let config = DiffConfig {
        find_renames: false,
        rename_threshold: None,
        ignore_patterns: vec!["vendor/".to_string(), "*.min.js".to_string(), "generated".to_string()],
    };
    assert!(config.is_ignored("vendor/a.rs"));
    assert!(config.is_ignored("crates/vendor/a.rs"));
    assert!(!config.is_ignored("src/vendored.rs"));
    assert!(config.is_ignored("static/app.min.js"));
    assert!(!config.is_ignored("static/app.js"));
    assert!(config.is_ignored("generated"));
    assert!(config.is_ignored("src/generated"));
    assert!(config.is_ignored("generated/out.rs"));
    assert!(!config.is_ignored("src/generated_code.rs"));
}

#[test]
fn compare_same_items_gives_no_events() {
    let code = "pub struct A;\nimpl A {\n    fn f(&self) {}\n    fn f(&self, x: u8) {}\n}\npub fn g() {}\n";
    let items = parse_items_for_path("src/a.rs", code);
    assert_eq!(items.len(), 4);
    assert!(compare_items("src/a.rs", &items, &items).is_empty());
}

#[test]
fn comment_change_counts_one_edit() {
    let old = "// version one\npub fn f() -> u8 { 1 }\n";
    let new = "// version two\npub fn f() -> u8 { 1 }\n";
    let events = analyze_file_diff("src/f.rs", Some(old), Some(new));
    assert_eq!(events.len(), 1);
    assert_eq!(events[0].kind, EditKind::FileModified);
    assert_eq!(events[0].symbol, None);
}

#[test]
fn add_and_delete_mirror() {
    let code = "class Worker:\n    def run(self):\n        pass\n\ndef helper():\n    pass\n";
    let added = analyze_file_diff("w.py", None, Some(code));
    let deleted = analyze_file_diff("w.py", Some(code), None);
    assert_eq!(added.len(), deleted.len());
    assert_eq!(added.len(), 4);
    assert_eq!(added[0].kind, EditKind::FileAdded);
    assert_eq!(deleted[0].kind, EditKind::FileDeleted);
    for i in 0..added.len() {
        assert_eq!(added[i].symbol, deleted[i].symbol);
        assert_eq!(added[i].line, deleted[i].line);
    }
    assert_eq!(added[1].kind, EditKind::ClassAdded);
    assert_eq!(deleted[1].kind, EditKind::ClassDeleted);
    assert_eq!(added[2].kind, EditKind::FunctionAdded);
    assert_eq!(deleted[3].kind, EditKind::FunctionDeleted);
}

#[test]
fn units_are_conserved() {
    let old = "pub struct A;\npub struct B;\npub fn f() {}\n";
    let new = "pub struct A;\npub fn f() { 1; }\npub fn g() {}\npub fn h() {}\n";
    let events = analyze_file_diff("src/m.rs", Some(old), Some(new));
    let count = |k: EditKind| events.iter().filter(|e| e.kind == k).count();
    // classes: 2 old, 1 new; functions: 1 old, 3 new
    assert_eq!(count(EditKind::ClassAdded) + 2, count(EditKind::ClassDeleted) + 1);
    assert_eq!(count(EditKind::FunctionAdded) + 1, count(EditKind::FunctionDeleted) + 3);
    assert_eq!(count(EditKind::FunctionModified), 1);
    assert_eq!(events.len(), 1 + 1 + 1 + 2);
}

#[test]
fn unknown_language_has_file_event_only() {
    let events = analyze_file_diff("notes.txt", None, Some("class A {\n fn b() {}\n}\n"));
    assert_eq!(events.len(), 1);
    assert_eq!(events[0].kind, EditKind::FileAdded);
    assert!(analyze_file_diff("x.rs", None, None).is_empty());
}

#[test]
fn invalid_rust_modified_counts_file_only() {
    let events = analyze_file_diff("src/bad.rs", Some("fn {{{"), Some("fn }}}"));
    assert_eq!(events.len(), 1);
    assert_eq!(events[0].kind, EditKind::FileModified);
}

#[test]
fn matching_prefers_same_parent() {
    let old = "struct A;\nstruct B;\nimpl A {\n    fn run(&self) {}\n}\nimpl B {\n    fn run(&self) {}\n}\n";
    let new = "struct A;\nstruct B;\nimpl B {\n    fn run(&self) {}\n}\nimpl A {\n    fn run(&self) { 1; }\n}\n";
    let events = analyze_file_diff("src/p.rs", Some(old), Some(new));
    assert_eq!(events.len(), 2);
    assert_eq!(events[1].kind, EditKind::FunctionModified);
    assert_eq!(events[1].symbol.as_deref(), Some("run"));
    assert_eq!(events[1].line, Some(7));
}

#[test]
fn trait_method_body_edit_is_one_function_edit() {
    let old = "trait T { fn f() { 1; } }\n";
    let new = "trait T { fn f() { 2; } }\n";
    let events = analyze_file_diff("src/t.rs", Some(old), Some(new));
    assert_eq!(events.len(), 2);
    assert_eq!(events[0].kind, EditKind::FileModified);
    assert_eq!(events[1].kind, EditKind::FunctionModified);
    assert_eq!(events[1].symbol.as_deref(), Some("f"));
}

#[test]
fn trait_definition_edit_modifies_the_trait() {
    let old = "pub trait T { type Out; fn f(&self); }\n";
    let new = "pub trait T { type Out: Clone; fn f(&self); }\n";
    let events = analyze_file_diff("src/t.rs", Some(old), Some(new));
    assert_eq!(events.len(), 2);
    assert_eq!(events[1].kind, EditKind::ClassModified);
    assert_eq!(events[1].symbol.as_deref(), Some("T"));

    let widened = "pub trait T: Clone { type Out; fn f(&self); }\n";
    let events = analyze_file_diff("src/t.rs", Some(old), Some(widened));
    assert_eq!(events.len(), 2);
    assert_eq!(events[1].kind, EditKind::ClassModified);
}

#[test]
fn javadoc_edit_is_one_function_edit() {
    let old = "public class Billing {\n    /**\n     * Computes the tax.\n     */\n    public int tax(int x) {\n        return x / 10;\n    }\n}\n";
    let new = "public class Billing {\n    /**\n     * Computes the tax, rounded down.\n     */\n    public int tax(int x) {\n        return x / 10;\n    }\n}\n";
    let events = analyze_file_diff("Billing.java", Some(old), Some(new));
    assert_eq!(events.len(), 2);
    assert_eq!(events[0].kind, EditKind::FileModified);
    assert_eq!(events[1].kind, EditKind::FunctionModified);
    assert_eq!(events[1].symbol.as_deref(), Some("tax"));
    assert_eq!(events[1].line, Some(5));
}

#[test]
fn jsdoc_edit_on_top_level_function() {
    let old = "// Adds two numbers.\nfunction add(a, b) {\n  return a + b;\n}\n";
    let new = "// Adds two numbers together.\nfunction add(a, b) {\n  return a + b;\n}\n";
    let events = analyze_file_diff("math.js", Some(old), Some(new));
    assert_eq!(events.len(), 2);
    assert_eq!(events[1].kind, EditKind::FunctionModified);
    assert_eq!(events[1].symbol.as_deref(), Some("add"));
    assert_eq!(events[1].line, Some(2));
}

#[test]
fn comment_apart_from_items_stays_with_the_class() {
    let old = "class Cart:\n    # the items\n    items = []\n\n    def total(self):\n        return 0\n";
    let new = "class Cart:\n    # the items in the cart\n    items = []\n\n    def total(self):\n        return 0\n";
    let events = analyze_file_diff("cart.py", Some(old), Some(new));
    assert_eq!(events.len(), 2);
    assert_eq!(events[1].kind, EditKind::ClassModified);
    assert_eq!(events[1].symbol.as_deref(), Some("Cart"));
}

#[test]
fn trait_doc_comment_edit_modifies_the_trait() {
    let old = "/// Shapes.\npub trait Shape { fn area(&self) -> u32; }\n";
    let new = "/// Plane shapes.\npub trait Shape { fn area(&self) -> u32; }\n";
    let events = analyze_file_diff("src/shape.rs", Some(old), Some(new));
    assert_eq!(events.len(), 2);
    assert_eq!(events[1].kind, EditKind::ClassModified);
    assert_eq!(events[1].symbol.as_deref(), Some("Shape"));
}

#[test]
fn delta_status_selects_versions() {
    assert!(!reads_old_version(DeltaStatus::Added));
    assert!(!reads_old_version(DeltaStatus::Untracked));
    assert!(reads_old_version(DeltaStatus::Deleted));
    assert!(reads_old_version(DeltaStatus::Changed));
    assert!(reads_new_version(DeltaStatus::Added));
    assert!(!reads_new_version(DeltaStatus::Deleted));
    assert!(reads_new_version(DeltaStatus::Changed));
}

#[test]
fn rust_sources_by_extension() {
    assert!(is_rust_source("src/main.rs"));
    assert!(is_rust_source("a.rs"));
    assert!(!is_rust_source(".rs"));
    assert!(!is_rust_source("src/.rs"));
    assert!(!is_rust_source("notes.rst"));
    assert!(!is_rust_source("rs"));
}
