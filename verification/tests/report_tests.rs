use edit_counter::{EditEvent, EditKind, EditReport};

    #[test]
    fn test_empty_report() {
        let report = EditReport::default();
        assert_eq!(report.total_edits, 0);
        assert_eq!(report.files_added, 0);
        assert_eq!(report.files_modified, 0);
        assert_eq!(report.files_deleted, 0);
        assert_eq!(report.classes_added, 0);
        assert_eq!(report.classes_modified, 0);
        assert_eq!(report.classes_deleted, 0);
        assert_eq!(report.functions_added, 0);
        assert_eq!(report.functions_modified, 0);
        assert_eq!(report.functions_deleted, 0);
        assert!(report.events.is_empty());
    }

    #[test]
    fn test_add_events() {
        let mut report = EditReport::default();
        report.add_event(EditEvent {
            kind: EditKind::FunctionAdded,
            symbol: Some("calculate_edits".to_string()),
            file: "src/main.rs".to_string(),
            line: Some(42),
        });
        report.add_event(EditKind::ClassAdded.into_event(
            Some("EditReport"),
            "src/main.rs",
            Some(10),
        ));

        assert_eq!(report.total_edits, 2);
        assert_eq!(report.functions_added, 1);
        assert_eq!(report.classes_added, 1);
    }

    /// Verifies file lifecycle events: adding, modifying, and deleting files.
    /// Expected breakdown: 1 FileAdded + 1 FileModified + 1 FileDeleted = 3 edits.
    #[test]
    fn test_file_lifecycle_edits() {
        let mut report = EditReport::default();

        report.add_event(EditKind::FileAdded.into_event(None, "src/lib.rs", None));
        report.add_event(EditKind::FileModified.into_event(None, "src/lib.rs", None));
        report.add_event(EditKind::FileDeleted.into_event(None, "src/old.rs", None));

        assert_eq!(report.total_edits, 3);
        assert_eq!(report.files_added, 1);
        assert_eq!(report.files_modified, 1);
        assert_eq!(report.files_deleted, 1);
        assert_eq!(report.events.len(), 3);
    }

    /// Verifies class and struct lifecycle events: adding, modifying, and deleting types.
    /// Expected breakdown: 1 ClassAdded + 1 ClassModified + 1 ClassDeleted = 3 edits.
    #[test]
    fn test_class_lifecycle_edits() {
        let mut report = EditReport::default();

        report.add_event(EditKind::ClassAdded.into_event(
            Some("UserSession"),
            "src/auth.rs",
            Some(5),
        ));
        report.add_event(EditKind::ClassModified.into_event(
            Some("UserSession"),
            "src/auth.rs",
            Some(5),
        ));
        report.add_event(EditKind::ClassDeleted.into_event(
            Some("OldSession"),
            "src/auth.rs",
            Some(50),
        ));

        assert_eq!(report.total_edits, 3);
        assert_eq!(report.classes_added, 1);
        assert_eq!(report.classes_modified, 1);
        assert_eq!(report.classes_deleted, 1);
        assert_eq!(report.events.len(), 3);
    }

    /// Verifies function and method lifecycle events: adding, modifying, and deleting functions.
    /// Expected breakdown: 1 FunctionAdded + 1 FunctionModified + 1 FunctionDeleted = 3 edits.
    #[test]
    fn test_function_lifecycle_edits() {
        let mut report = EditReport::default();

        report.add_event(EditKind::FunctionAdded.into_event(
            Some("authenticate"),
            "src/auth.rs",
            Some(12),
        ));
        report.add_event(EditKind::FunctionModified.into_event(
            Some("authenticate"),
            "src/auth.rs",
            Some(12),
        ));
        report.add_event(EditKind::FunctionDeleted.into_event(
            Some("legacy_login"),
            "src/auth.rs",
            Some(40),
        ));

        assert_eq!(report.total_edits, 3);
        assert_eq!(report.functions_added, 1);
        assert_eq!(report.functions_modified, 1);
        assert_eq!(report.functions_deleted, 1);
        assert_eq!(report.events.len(), 3);
    }

    /// Tests a composite scenario where a developer introduces a new module with a struct and two methods.
    /// Scenario: 1 file added (src/auth.rs), 1 struct added (UserAuth), 2 methods added (login, logout).
    /// Expected breakdown: 1 FileAdded + 1 ClassAdded + 2 FunctionAdded = 4 edits.
    #[test]
    fn test_composite_scenario_new_feature() {
        let mut report = EditReport::default();

        report.add_event(EditKind::FileAdded.into_event(None, "src/auth.rs", None));
        report.add_event(EditKind::ClassAdded.into_event(Some("UserAuth"), "src/auth.rs", Some(1)));
        report.add_event(EditKind::FunctionAdded.into_event(
            Some("login"),
            "src/auth.rs",
            Some(10),
        ));
        report.add_event(EditKind::FunctionAdded.into_event(
            Some("logout"),
            "src/auth.rs",
            Some(25),
        ));

        assert_eq!(report.total_edits, 4);
        assert_eq!(report.files_added, 1);
        assert_eq!(report.classes_added, 1);
        assert_eq!(report.functions_added, 2);
        assert_eq!(report.events.len(), 4);
    }

    /// Tests a composite scenario where a developer refactors two existing functions inside an existing file.
    /// Scenario: 1 file modified (src/billing.rs), 2 functions modified (apply_discount, compute_tax).
    /// Expected breakdown: 1 FileModified + 2 FunctionModified = 3 edits.
    #[test]
    fn test_composite_scenario_function_refactor() {
        let mut report = EditReport::default();

        report.add_event(EditKind::FileModified.into_event(None, "src/billing.rs", None));
        report.add_event(EditKind::FunctionModified.into_event(
            Some("apply_discount"),
            "src/billing.rs",
            Some(30),
        ));
        report.add_event(EditKind::FunctionModified.into_event(
            Some("compute_tax"),
            "src/billing.rs",
            Some(60),
        ));

        assert_eq!(report.total_edits, 3);
        assert_eq!(report.files_modified, 1);
        assert_eq!(report.functions_modified, 2);
        assert_eq!(report.events.len(), 3);
    }

    /// Tests a composite scenario where an entire file containing 1 struct and 2 functions is deleted.
    /// Scenario: 1 file deleted (src/old_parser.rs), 1 struct deleted (OldParser), 2 functions deleted (parse, tokenize).
    /// Expected breakdown: 1 FileDeleted + 1 ClassDeleted + 2 FunctionDeleted = 4 edits.
    #[test]
    fn test_composite_scenario_file_deletion() {
        let mut report = EditReport::default();

        report.add_event(EditKind::FileDeleted.into_event(None, "src/old_parser.rs", None));
        report.add_event(EditKind::ClassDeleted.into_event(
            Some("OldParser"),
            "src/old_parser.rs",
            Some(1),
        ));
        report.add_event(EditKind::FunctionDeleted.into_event(
            Some("parse"),
            "src/old_parser.rs",
            Some(15),
        ));
        report.add_event(EditKind::FunctionDeleted.into_event(
            Some("tokenize"),
            "src/old_parser.rs",
            Some(45),
        ));

        assert_eq!(report.total_edits, 4);
        assert_eq!(report.files_deleted, 1);
        assert_eq!(report.classes_deleted, 1);
        assert_eq!(report.functions_deleted, 2);
        assert_eq!(report.events.len(), 4);
    }


    /// The report that the JSON output is made from; its serialisation
    /// belongs to the command-line program, which holds the serde copy of
    /// the type.
    #[test]
    fn test_json_serialization_matches_spec() {
        let mut report = EditReport::default();
        report.add_event(EditKind::FileAdded.into_event(None, "src/auth.rs", None));
        report.add_event(EditKind::ClassAdded.into_event(Some("UserAuth"), "src/auth.rs", Some(1)));
        report.add_event(EditKind::FunctionAdded.into_event(
            Some("login"),
            "src/auth.rs",
            Some(10),
        ));

        assert_eq!(report.total_edits, 3);
        assert_eq!(report.files_added, 1);
        assert_eq!(report.classes_added, 1);
        assert_eq!(report.functions_added, 1);
        assert_eq!(report.events.len(), 3);
        assert_eq!(report.events[0].kind, EditKind::FileAdded);
        assert_eq!(report.events[1].symbol.as_deref(), Some("UserAuth"));
        assert_eq!(report.events[2].line, Some(10));
    }
