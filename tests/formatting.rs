use beautiful_md::config::{CodeConfig, Config, HeadingConfig, ListConfig, TableConfig};
use beautiful_md::diagnostics::{Diagnostic, DiagnosticKind, Diagnostics, Severity};
use beautiful_md::formatter;
use beautiful_md::formatters::code::format_code_blocks;
use beautiful_md::formatters::heading::{format_headings, is_heading, normalize_heading};
use beautiful_md::formatters::list::{
    format_lists, is_ordered_list_item, is_unordered_list_item, parse_list_item,
};
use beautiful_md::formatters::table::format_tables;
use beautiful_md::formatters::apply_all;
use beautiful_md::preprocessor::{fix_headings, fix_list_markers, fix_table_pipes, preprocess};

#[test]
fn test_default_config() {
    let config = Config::default();
    assert!(config.tables.align);
    assert_eq!(config.tables.min_column_width, 3);
    assert_eq!(config.headings.blank_lines_before, 2);
    assert_eq!(config.lists.marker, "-");
}

#[test]
fn test_diagnostic_creation() {
    let diag = Diagnostic::new(
        Severity::Warning,
        DiagnosticKind::MalformedTable,
        42,
        "Test message",
    );
    assert_eq!(diag.line, 42);
    assert_eq!(diag.message, "Test message");
}

#[test]
fn test_diagnostics_collection() {
    let mut diags = Diagnostics::new();
    assert!(diags.is_empty());

    diags.warn(DiagnosticKind::MalformedTable, 10, "Test");
    assert_eq!(diags.len(), 1);

    let warnings = diags.by_severity(Severity::Warning);
    assert_eq!(warnings.len(), 1);
}

#[test]
fn test_basic_formatting() {
    let input = "# Hello\n\nWorld";
    let config = Config::default();
    let result = formatter::format(input, &config);
    assert!(result.is_ok());
}

#[test]
fn test_format_code_blocks() {
    let input = "```rust\nfn main() {}\n```";
    let config = CodeConfig::default();
    let result = format_code_blocks(input, &config).unwrap();
    assert!(result.contains("```rust"));
    assert!(result.contains("fn main()"));
}

#[test]
fn test_format_code_blocks_tilde() {
    let input = "~~~python\nprint('hello')\n~~~";
    let config = CodeConfig::default();
    let result = format_code_blocks(input, &config).unwrap();
    assert!(result.contains("python"));
}

#[test]
fn test_normalize_heading() {
    assert_eq!(normalize_heading("#Heading"), "# Heading");
    assert_eq!(normalize_heading("# Heading"), "# Heading");
    assert_eq!(normalize_heading("##No Space"), "## No Space");
}

#[test]
fn test_is_heading() {
    assert!(is_heading("# Heading"));
    assert!(is_heading("## Another"));
    assert!(!is_heading("Not a heading"));
    assert!(!is_heading("```code"));
}

#[test]
fn test_format_headings() {
    let input = "# Heading\nText\n## Another";
    let config = HeadingConfig {
        blank_lines_before: 1,
        blank_lines_after: 1,
        space_after_hash: true,
    };

    let result = format_headings(input, &config);
    assert!(result.contains("# Heading"));
}

#[test]
fn test_is_unordered_list_item() {
    assert!(is_unordered_list_item("- Item"));
    assert!(is_unordered_list_item("* Item"));
    assert!(is_unordered_list_item("+ Item"));
    assert!(!is_unordered_list_item("Not a list"));
}

#[test]
fn test_is_ordered_list_item() {
    assert!(is_ordered_list_item("1. Item"));
    assert!(is_ordered_list_item("42. Item"));
    assert!(!is_ordered_list_item("Not a list"));
}

#[test]
fn test_parse_list_item() {
    let (level, content) = parse_list_item("- Item");
    assert_eq!(level, 0);
    assert_eq!(content, "Item");

    let (level, content) = parse_list_item("  - Nested");
    assert_eq!(level, 1);
    assert_eq!(content, "Nested");
}

#[test]
fn test_format_lists() {
    let input = "- Item 1\n* Item 2\n+ Item 3";
    let config = ListConfig {
        indent_size: 2,
        marker: String::from("-"),
        normalize_numbers: true,
    };

    let result = format_lists(input, &config);
    assert!(result.contains("- Item 1"));
    assert!(result.contains("- Item 2"));
    assert!(result.contains("- Item 3"));
}

#[test]
fn test_bold_before_list() {
    let input = "# Test\n\n**Table of Contents:**\n\n* Tables with various structures\n* Headings at different levels";
    let config = ListConfig {
        indent_size: 2,
        marker: String::from("-"),
        normalize_numbers: true,
    };

    let result = format_lists(input, &config);
    println!("INPUT:\n{input}");
    println!("\nOUTPUT:\n{result}");

    assert!(result.contains("**Table of Contents:**"));
    assert!(!result.contains("- *Table of Contents"));
}

#[test]
fn test_apply_all() {
    let content = "# Test\n\nSome text.";
    let config = Config::default();
    let result = apply_all(content, &config);
    assert!(!result.is_empty());
}

#[test]
fn test_format_simple_table() {
    let input = "|Name|Age|\n|---|---|\n|Alice|30|";
    let config = TableConfig::default();
    let result = format_tables(input, &config);

    assert!(result.contains("Name"));
    assert!(result.contains("Alice"));
}

#[test]
fn test_format_table_disabled() {
    let input = "|Name|Age|\n|---|---|\n|Alice|30|";
    let config = TableConfig {
        align: false,
        ..Default::default()
    };

    let result = format_tables(input, &config);
    assert_eq!(result, input);
}

#[test]
fn test_fix_headings_no_space() {
    assert_eq!(fix_headings("#NoSpace"), "# NoSpace");
    assert_eq!(fix_headings("##Another"), "## Another");
}

#[test]
fn test_fix_headings_trailing_hashes() {
    assert_eq!(fix_headings("####Trailing####"), "#### Trailing");
    assert_eq!(fix_headings("# Title #"), "# Title");
}

#[test]
fn test_fix_headings_too_many_spaces() {
    assert_eq!(fix_headings("###  TooMany"), "### TooMany");
}

#[test]
fn test_fix_headings_preserve_valid() {
    assert_eq!(fix_headings("# Valid Heading"), "# Valid Heading");
    assert_eq!(fix_headings("## Another Valid"), "## Another Valid");
}

#[test]
fn test_fix_list_markers_no_space() {
    assert_eq!(fix_list_markers("-Item"), "- Item");
    assert_eq!(fix_list_markers("*Item"), "* Item");
    assert_eq!(fix_list_markers("+Item"), "+ Item");
}

#[test]
fn test_fix_list_markers_ordered() {
    assert_eq!(fix_list_markers("1.Item"), "1. Item");
    assert_eq!(fix_list_markers("42.Something"), "42. Something");
}

#[test]
fn test_fix_table_pipes() {
    let mut diagnostics = Diagnostics::new();
    assert_eq!(fix_table_pipes("Name|Age", &mut diagnostics), "|Name|Age|");
    assert_eq!(fix_table_pipes("|Name|Age", &mut diagnostics), "|Name|Age|");
    assert_eq!(fix_table_pipes("Name|Age|", &mut diagnostics), "|Name|Age|");
}

#[test]
fn test_preprocess_combined() {
    let input = "#NoSpace\n-Item\nName|Age";
    let expected = "# NoSpace\n- Item\n|Name|Age|";
    let (result, _diagnostics) = preprocess(input);
    assert_eq!(result, expected);
}
