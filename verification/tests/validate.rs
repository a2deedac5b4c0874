use file_creator::creator::{FileCreatorApp, SizeSpec};
use file_creator::decimal::{is_decimal_text, magnitude_positive_text};
use file_creator::plan::ValidationError;

#[test]
fn decimal_forms_accepted() {
    assert!(is_decimal_text("1"));
    assert!(is_decimal_text("1.5"));
    assert!(is_decimal_text(".5"));
    assert!(is_decimal_text("1."));
    assert!(is_decimal_text("+2"));
    assert!(is_decimal_text("-3"));
    assert!(is_decimal_text("007"));
}

#[test]
fn non_decimal_forms_rejected() {
    assert!(!is_decimal_text(""));
    assert!(!is_decimal_text("."));
    assert!(!is_decimal_text("+"));
    assert!(!is_decimal_text("-."));
    assert!(!is_decimal_text("1.2.3"));
    assert!(!is_decimal_text("1e5"));
    assert!(!is_decimal_text("abc"));
    assert!(!is_decimal_text("--1"));
    assert!(!is_decimal_text("1a"));
    assert!(!is_decimal_text(" 1"));
}

#[test]
fn positivity() {
    assert!(magnitude_positive_text("1"));
    assert!(magnitude_positive_text("+0.1"));
    assert!(magnitude_positive_text("0.0001"));
    assert!(!magnitude_positive_text("0"));
    assert!(!magnitude_positive_text("0.0"));
    assert!(!magnitude_positive_text("-1"));
    assert!(!magnitude_positive_text("-0"));
    assert!(!magnitude_positive_text("000.000"));
}

#[test]
fn size_spec_rejects_bad_input() {
    assert_eq!(SizeSpec::new("abc", "MB"), Err(ValidationError::NonNumericSize));
    assert_eq!(SizeSpec::new("0", "MB"), Err(ValidationError::NonPositiveSize));
    assert_eq!(SizeSpec::new("-5", "MB"), Err(ValidationError::NonPositiveSize));
}

fn app_with(dir: &str, size: &str, unit: &str) -> FileCreatorApp {
    FileCreatorApp {
        save_dir: dir.to_string(),
        file_size: size.to_string(),
        size_unit: unit.to_string(),
        status_msg: String::new(),
    }
}

#[test]
fn empty_directory_is_a_validation_error() {
    let mut app = app_with("", "1", "MB");
    let r = app.create_file();
    assert_eq!(r.unwrap_err(), ValidationError::EmptyDirectory);
    assert_eq!(app.status_msg, "error: the save directory must not be empty");
}

#[test]
fn non_numeric_size_is_a_validation_error() {
    let mut app = app_with("/tmp", "12MB", "MB");
    let r = app.create_file();
    assert_eq!(r.unwrap_err(), ValidationError::NonNumericSize);
    assert_eq!(app.status_msg, "error: the file size must be a number");
}

#[test]
fn non_positive_size_is_a_validation_error() {
    let mut app = app_with("/tmp", "-5", "GB");
    let r = app.create_file();
    assert_eq!(r.unwrap_err(), ValidationError::NonPositiveSize);
    assert_eq!(app.status_msg, "error: the file size must be greater than 0");

    let mut app = app_with("/tmp", "0.000", "GB");
    let r = app.create_file();
    assert_eq!(r.unwrap_err(), ValidationError::NonPositiveSize);
}

#[test]
fn directory_is_checked_before_size() {
    let mut app = app_with("", "abc", "MB");
    let r = app.create_file();
    assert_eq!(r.unwrap_err(), ValidationError::EmptyDirectory);
}

#[test]
fn valid_input_yields_a_request() {
    let mut app = app_with("/tmp", "450", "GB");
    let req = app.create_file().unwrap();
    assert_eq!(req.directory, "/tmp");
    assert_eq!(req.filename, "450GB.devrom");
    assert_eq!(req.size_bytes, 483183820800);
    assert_eq!(app.status_msg, "");
}

#[test]
fn default_form_is_one_megabyte() {
    let app = FileCreatorApp::default();
    assert_eq!(app.save_dir, "");
    assert_eq!(app.file_size, "1");
    assert_eq!(app.size_unit, "MB");
    assert_eq!(app.status_msg, "");
}

#[test]
fn validation_messages() {
    assert_eq!(
        ValidationError::EmptyDirectory.message(),
        "error: the save directory must not be empty"
    );
    assert_eq!(
        ValidationError::NonNumericSize.message(),
        "error: the file size must be a number"
    );
    assert_eq!(
        ValidationError::NonPositiveSize.message(),
        "error: the file size must be greater than 0"
    );
}
