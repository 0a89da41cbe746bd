use penumbra_wrapper::error::{AppError, ErrorCategory};

#[test]
fn test_error_categorization() {
    let io_err = AppError::Io { message: "test".to_string(), code: None };
    assert_eq!(io_err.category(), ErrorCategory::FileSystem);

    let update_err = AppError::Update {
        message: "test".to_string(),
        category: ErrorCategory::Network,
        suggestion: None,
    };
    assert_eq!(update_err.category(), ErrorCategory::Network);
}

#[test]
fn test_suggestion_for_permission_error() {
    let io_err = AppError::Io { message: "Access denied".to_string(), code: Some(5) };
    assert!(io_err.suggestion().is_some());
    assert!(io_err.suggestion().unwrap().contains("Administrator"));
}

#[test]
fn categories_of_each_kind() {
    assert_eq!(AppError::command("x".to_string()).category(), ErrorCategory::Command);
    assert_eq!(AppError::DeviceNotConnected.category(), ErrorCategory::Validation);
    assert_eq!(AppError::Cancelled.category(), ErrorCategory::Unknown);
    assert_eq!(AppError::parse("x".to_string()).category(), ErrorCategory::Validation);
    assert_eq!(AppError::invalid_partition("x".to_string()).category(), ErrorCategory::Validation);
    assert_eq!(AppError::other("x".to_string()).category(), ErrorCategory::Unknown);
    assert_eq!(
        AppError::other_with_category("x".to_string(), ErrorCategory::Update).category(),
        ErrorCategory::Update
    );
    assert_eq!(ErrorCategory::unknown(), ErrorCategory::Unknown);
}

#[test]
fn messages_of_each_kind() {
    assert_eq!(AppError::DeviceNotConnected.message(), "Device not connected");
    assert_eq!(AppError::Cancelled.message(), "Operation cancelled");
    assert_eq!(AppError::io_with_code("disk".to_string(), 3).message(), "disk");
    assert_eq!(
        AppError::command_with_output("run".to_string(), "out".to_string()).message(),
        "run"
    );
    match AppError::io_with_code("disk".to_string(), 3) {
        AppError::Io { code, .. } => assert_eq!(code, Some(3)),
        _ => panic!("wrong kind"),
    }
}

#[test]
fn suggestions_of_each_kind() {
    assert_eq!(
        AppError::io("File NOT FOUND".to_string()).suggestion().as_deref(),
        Some("Check that the file or directory exists")
    );
    assert_eq!(AppError::io("broken pipe".to_string()).suggestion(), None);
    assert_eq!(
        AppError::command("antumbra crashed".to_string()).suggestion().as_deref(),
        Some("Ensure antumbra binary is installed and accessible")
    );
    assert_eq!(AppError::command("Antumbra crashed".to_string()).suggestion(), None);
    assert!(AppError::DeviceNotConnected.suggestion().unwrap().contains("BROM/preloader"));
    assert_eq!(AppError::Cancelled.suggestion(), None);
    let e = AppError::Update {
        message: "m".to_string(),
        category: ErrorCategory::Update,
        suggestion: Some("retry".to_string()),
    };
    assert_eq!(e.suggestion().as_deref(), Some("retry"));
}

fn update_parts(e: AppError) -> (String, ErrorCategory, Option<String>) {
    match e {
        AppError::Update { message, category, suggestion } => (message, category, suggestion),
        other => panic!("not an update error: {:?}", other),
    }
}

#[test]
fn classification_of_error_text() {
    let (m, c, s) = update_parts(AppError::from_message("Sharing Violation on file".to_string()));
    assert_eq!(m, "Sharing Violation on file");
    assert_eq!(c, ErrorCategory::Permission);
    assert_eq!(s.as_deref(), Some("Close antumbra.exe and try again"));

    let (_, c, s) = update_parts(AppError::from_message("Permission denied".to_string()));
    assert_eq!(c, ErrorCategory::Permission);
    assert_eq!(s.as_deref(), Some("Run as Administrator or check antivirus settings"));

    let (_, c, _) = update_parts(AppError::from_message("GitHub unreachable".to_string()));
    assert_eq!(c, ErrorCategory::Network);

    let (_, c, _) = update_parts(AppError::from_message("Checksum mismatch".to_string()));
    assert_eq!(c, ErrorCategory::Validation);

    let (_, c, s) = update_parts(AppError::from_message("No space left on device".to_string()));
    assert_eq!(c, ErrorCategory::FileSystem);
    assert_eq!(s.as_deref(), Some("Free up disk space and try again"));

    match AppError::from_message("something odd".to_string()) {
        AppError::Other { message, category } => {
            assert_eq!(message, "something odd");
            assert_eq!(category, ErrorCategory::Unknown);
        }
        other => panic!("unexpected {:?}", other),
    }
}
