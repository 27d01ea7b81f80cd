use mdbook_spec::links::LinkError;
use mdbook_spec::version::{check_version, version_warning, VersionError};

#[test]
fn compatible_host_is_admitted() {
    assert_eq!(check_version("0.4.40", "0.4.40"), Ok(true));
    assert_eq!(check_version("0.4.40", "0.4.52"), Ok(true));
}

#[test]
fn other_host_versions_are_not_admitted() {
    assert_eq!(check_version("0.4.40", "0.4.39"), Ok(false));
    assert_eq!(check_version("0.4.40", "0.5.0"), Ok(false));
    assert_eq!(check_version("1.2.3", "2.0.0"), Ok(false));
    assert_eq!(check_version("1.2.3", "1.9.0"), Ok(true));
}

#[test]
fn unreadable_versions_are_errors() {
    assert_eq!(check_version("0.4.40", "not a version"), Err(VersionError::Host));
    assert_eq!(check_version("0.4.40", "0.4"), Err(VersionError::Host));
    assert_eq!(check_version("?", "0.4.40"), Err(VersionError::Built));
    assert_eq!(check_version("?", "?"), Err(VersionError::Host));
}

#[test]
fn version_warning_names_both_versions() {
    assert_eq!(
        version_warning("nop-preprocessor", "0.4.40", "0.5.0"),
        "warning: The nop-preprocessor plugin was built against version 0.4.40 of mdbook, \
         but we're being called from version 0.5.0"
    );
}

#[test]
fn tool_failure_message_holds_the_error_output() {
    let e = LinkError::ToolFailed {
        status: "ExitStatus(unix_wait_status(256))".to_string(),
        stderr: "error: unresolved link to `std::nope`\n".to_string(),
    };
    assert_eq!(
        e.message("Items", "src/items.md"),
        "error: failed to extract std links (ExitStatus(unix_wait_status(256))) in chapter Items \
         (\"src/items.md\")\n\nerror: unresolved link to `std::nope`\n"
    );
}

#[test]
fn count_mismatch_message_names_both_numbers() {
    let e = LinkError::CountMismatch { expected: 12, found: 9 };
    assert_eq!(
        e.message("Items", "src/items.md"),
        "error: expected rustdoc to generate 12 links, but found 9 in chapter Items (\"src/items.md\")"
    );
}
