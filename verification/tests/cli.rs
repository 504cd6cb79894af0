use california_dashboard::cli::{max_payload_bytes, validate_stem};

#[test]
fn export_stem_cannot_escape_output_directory() {
    assert!(validate_stem("school-report").is_ok());
    assert!(validate_stem("../school-report").is_err());
    assert!(validate_stem("").is_err());
}

#[test]
fn stem_messages_name_the_problem() {
    assert_eq!(validate_stem("   ").unwrap_err(), "--stem cannot be empty");
    assert_eq!(validate_stem("out/report").unwrap_err(), "--stem must be a file name, not a path");
    assert_eq!(validate_stem("..").unwrap_err(), "--stem must be a file name, not a path");
}

#[test]
fn payload_limit_converts_mebibytes() {
    assert_eq!(max_payload_bytes(16), Ok(16 * 1024 * 1024));
    assert_eq!(max_payload_bytes(usize::MAX).unwrap_err(), "--max-payload-mib is too large");
}

#[test]
fn stems_with_dots_and_spaces_are_file_names() {
    assert!(validate_stem("report.v2").is_ok());
    assert!(validate_stem("school report 2025").is_ok());
    assert!(validate_stem("...").is_ok());
    assert_eq!(validate_stem(".").unwrap_err(), "--stem must be a file name, not a path");
}
