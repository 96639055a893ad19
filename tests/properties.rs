use beautiful_md::config::{CodeConfig, Config, HeadingConfig, ListConfig, TableConfig};
use beautiful_md::diagnostics::{Diagnostic, DiagnosticKind, Diagnostics, Severity};
use beautiful_md::format_markdown;
use beautiful_md::formatter::format_canonical;
use beautiful_md::formatters::code::format_code_blocks;
use beautiful_md::formatters::heading::format_headings;
use beautiful_md::formatters::list::format_lists;
use beautiful_md::formatters::table::format_tables;
use beautiful_md::formatters::{extract_code_blocks_early, restore_code_blocks_early};
use beautiful_md::preprocessor::{fix_headings, fix_list_markers, fix_table_pipes, preprocess};

fn list_config() -> ListConfig {
    ListConfig {
        indent_size: 2,
        marker: String::from("-"),
        normalize_numbers: true,
    }
}

#[test]
fn heading_repair_example() {
    assert_eq!(fix_headings("#Heading"), "# Heading");
    let (text, diags) = preprocess("#Heading");
    assert_eq!(text, "# Heading");
    assert!(diags.is_empty());
}

#[test]
fn heading_repair_leaves_invalid_headings() {
    assert_eq!(fix_headings("#######Seven"), "#######Seven");
    assert_eq!(fix_headings("###"), "###");
    assert_eq!(fix_headings("#   "), "#   ");
    assert_eq!(fix_headings("  ##Indented"), "## Indented");
}

#[test]
fn list_marker_repair_example() {
    assert_eq!(fix_list_markers("-Item"), "- Item");
    assert_eq!(fix_list_markers("  -Nested"), "  - Nested");
    assert_eq!(fix_list_markers("---"), "---");
    assert_eq!(fix_list_markers("- Fine"), "- Fine");
    assert_eq!(fix_list_markers("1."), "1.");
    assert_eq!(fix_list_markers(".Dot"), ".Dot");
}

#[test]
fn table_pipe_repair_example() {
    let mut diagnostics = Diagnostics::new();
    assert_eq!(fix_table_pipes("Name|Age", &mut diagnostics), "|Name|Age|");
    assert_eq!(diagnostics.len(), 1);
    let d = &diagnostics.messages()[0];
    assert_eq!(d.severity, Severity::Info);
    assert_eq!(d.kind, DiagnosticKind::MalformedTable);
    assert_eq!(d.line, 1);
    assert_eq!(d.message, "Fixed missing table pipes");
    assert_eq!(d.snippet.as_deref(), Some("Name|Age → |Name|Age|"));
}

#[test]
fn table_example_default_config() {
    let input = "|Name|Age|\n|---|---|\n|Alice|30|";
    let result = format_tables(input, &TableConfig::default());
    assert_eq!(
        result,
        "| Name  | Age |\n| ----- | --- |\n| Alice | 30  |\n"
    );
}

#[test]
fn table_columns_aligned_and_min_width() {
    let input = "|a|b|\n|:-|-:|\n|ccc|:d:|\n|x|y|";
    let config = TableConfig {
        align: true,
        min_column_width: 4,
        padding: 2,
    };
    let result = format_tables(input, &config);
    let rows: Vec<&str> = result.lines().collect();
    assert_eq!(rows.len(), 4);
    for row in &rows {
        assert_eq!(row.chars().count(), rows[0].chars().count());
        let pipes: Vec<usize> = row.char_indices().filter(|(_, c)| *c == '|').map(|(i, _)| i).collect();
        assert_eq!(pipes, vec![0, 9, 18]);
    }
    assert_eq!(rows[1], "|  :---  |  ---:  |");
}

#[test]
fn table_single_line_passes_through() {
    let result = format_tables("text\n|only|\nmore", &TableConfig::default());
    assert_eq!(result, "text\n|only|\nmore\n");
}

#[test]
fn table_narrow_separator_keeps_colons() {
    let config = TableConfig {
        align: true,
        min_column_width: 0,
        padding: 0,
    };
    let result = format_tables("|:-:|\n|:-:|", &config);
    assert_eq!(result, "|::|\n|::|\n");
}

#[test]
fn column_mismatch_gives_one_warning() {
    let mut diagnostics = Diagnostics::new();
    let out = fix_table_pipes("|a|b|\n|---|---|\n|1|2|3|", &mut diagnostics);
    assert_eq!(out, "|a|b|\n|---|---|\n|1|2|3|");
    let warnings = diagnostics.by_severity(Severity::Warning);
    assert_eq!(warnings.len(), 1);
    assert_eq!(warnings[0].kind, DiagnosticKind::MalformedTable);
    assert_eq!(warnings[0].line, 3);
    assert_eq!(
        warnings[0].message,
        "Table has inconsistent columns: expected 2, found 3"
    );
    assert_eq!(warnings[0].snippet.as_deref(), Some("|1|2|3|"));
    assert_eq!(diagnostics.len(), 1);
}

#[test]
fn column_count_resets_after_plain_line() {
    let mut diagnostics = Diagnostics::new();
    fix_table_pipes("|a|b|\n|1|2|\ntext\n|x|y|z|", &mut diagnostics);
    assert!(diagnostics.is_empty());
}

#[test]
fn unterminated_fence_is_extracted_and_closed() {
    let (text, blocks) = extract_code_blocks_early("Intro\n```rust\nfn main() {}\n  let x = 1;");
    assert_eq!(text, "Intro\n<!--BEAUTIFUL_MD_CODE_BLOCK_0-->");
    assert_eq!(blocks, vec![(String::from("rust"), String::from("fn main() {}\n  let x = 1;"))]);
    let mut config = Config::default();
    config.code.fence_style = String::from("~~~");
    let restored = restore_code_blocks_early(&text, &blocks, &config);
    assert_eq!(restored, "Intro\n~~~rust\nfn main() {}\n  let x = 1;\n~~~");
}

#[test]
fn restore_untagged_and_unknown_placeholders() {
    let blocks = vec![(String::new(), String::from("a|b"))];
    let config = Config::default();
    let text = "x <!--BEAUTIFUL_MD_CODE_BLOCK_0--> <!--BEAUTIFUL_MD_CODE_BLOCK_1--> <!--BEAUTIFUL_MD_CODE_BLOCK_00-->";
    let restored = restore_code_blocks_early(text, &blocks, &config);
    assert_eq!(
        restored,
        "x ```\na|b\n``` <!--BEAUTIFUL_MD_CODE_BLOCK_1--> <!--BEAUTIFUL_MD_CODE_BLOCK_00-->"
    );
}

#[test]
fn code_body_is_verbatim_through_pipeline() {
    let input = "# Title\n\n```\n#NoSpace\n-item\n  a|b\n```\n\nText";
    let (out, _) = format_markdown(input, &Config::default()).unwrap();
    assert!(out.contains("```\n#NoSpace\n-item\n  a|b\n```"));
}

#[test]
fn heading_spacing_example() {
    let config = HeadingConfig {
        blank_lines_before: 2,
        blank_lines_after: 1,
        space_after_hash: true,
    };
    let out = format_headings("Intro\n\n\n\n#Heading\n\n\nText", &config);
    assert_eq!(out, "Intro\n\n\n# Heading\n\nText");
    let out = format_headings("# First\nText", &config);
    assert_eq!(out, "# First\n\nText");
}

#[test]
fn ordered_runs_restart_after_other_text() {
    let out = format_lists("3. a\n7. b\nText\n5. c\n\n9. d", &list_config());
    assert_eq!(out, "1. a\n2. b\nText\n1. c\n\n1. d");
    let keep = ListConfig {
        normalize_numbers: false,
        ..list_config()
    };
    assert_eq!(format_lists("3. a\n7. b", &keep), "3. a\n7. b");
}

#[test]
fn ordered_runs_restart_after_blank_line() {
    let out = format_lists("1. a\n2. b\n\n7. c\n9. d", &ListConfig::default());
    assert_eq!(out, "1. a\n2. b\n\n1. c\n2. d");
}

#[test]
fn sentence_with_number_is_no_list_item() {
    let text = "2024 was a good year. Really";
    assert_eq!(format_lists(text, &ListConfig::default()), text);
    assert_eq!(format_lists("12. x", &ListConfig::default()), "1. x");
}

#[test]
fn bullets_take_marker_and_indent() {
    let config = ListConfig {
        indent_size: 4,
        marker: String::from("*"),
        normalize_numbers: true,
    };
    assert_eq!(format_lists("- a\n  + b\n    - c", &config), "* a\n    * b\n        * c");
}

#[test]
fn code_blocks_in_place_use_configured_fence() {
    let config = CodeConfig {
        ensure_language_tag: false,
        fence_style: String::from("~~~"),
    };
    let out = format_code_blocks("a\n```js\nx\n```\nb", &config).unwrap();
    assert_eq!(out, "a\n~~~js\nx\n~~~\nb");
    let open = format_code_blocks("```js\nx", &config).unwrap();
    assert_eq!(open, "~~~js\nx\n~~~");
    let tilde = format_code_blocks("~~~python\nprint('hello')\n~~~", &CodeConfig::default()).unwrap();
    assert_eq!(tilde, "```python\nprint('hello')\n```");
    let unterminated = format_code_blocks("text\n```rust\nlet x = 1;", &CodeConfig::default()).unwrap();
    assert_eq!(unterminated, "text\n```rust\nlet x = 1;\n```");
}

#[test]
fn diagnostics_report_source_lines() {
    let (_, d) = format_markdown("```\na\nb\n```\nx|y", &Config::default()).unwrap();
    assert_eq!(d.len(), 1);
    assert_eq!(d.messages()[0].severity, Severity::Info);
    assert_eq!(d.messages()[0].line, 5);
}

#[test]
fn column_count_resets_at_fences() {
    let mut diagnostics = Diagnostics::new();
    fix_table_pipes("|a|b|\n```\n```\n|1|2|3|", &mut diagnostics);
    assert!(diagnostics.is_empty());
}

#[test]
fn round_trip_canonicalizes_setext_heading() {
    let (out, diags) = format_markdown("Title\n=====\n\nBody text.", &Config::default()).unwrap();
    assert!(out.contains("# Title"));
    assert!(out.contains("Body text."));
    assert!(diags.is_empty());
}

#[test]
fn pipeline_reports_repair_diagnostics() {
    let (out, diags) = format_markdown("Name|Age\nAlice|30", &Config::default()).unwrap();
    assert_eq!(diags.len(), 2);
    assert!(out.contains("Name"));
}

#[test]
fn pipeline_idempotent_on_simple_document() {
    let config = Config::default();
    let input = "# Title\n\nSome text here.\n\n## Section\n\nMore text.";
    let (once, _) = format_markdown(input, &config).unwrap();
    let (twice, diags) = format_markdown(&once, &config).unwrap();
    assert_eq!(once, twice);
    assert!(diags.is_empty());
}

#[test]
fn format_canonical_restores_blocks() {
    let blocks = vec![(String::from("sh"), String::from("ls"))];
    let out = format_canonical("Para\n<!--BEAUTIFUL_MD_CODE_BLOCK_0-->", &blocks, &Config::default());
    assert_eq!(out, "Para\n```sh\nls\n```");
}

#[test]
fn diagnostic_render_and_report() {
    let d = Diagnostic::new(Severity::Warning, DiagnosticKind::Other, 7, "Bad").with_snippet("x");
    assert_eq!(d.render(), "\u{26a0}\u{fe0f} Line 7: Bad\n  \u{2502} x");
    let mut diags = Diagnostics::new();
    assert_eq!(diags.report(), "");
    diags.info(DiagnosticKind::UnclosedCodeBlock, 3, "Note");
    diags.add(d);
    assert_eq!(
        diags.report(),
        "\n2 issues found:\n\u{2139}\u{fe0f} Line 3: Note\n\u{26a0}\u{fe0f} Line 7: Bad\n  \u{2502} x\n\n"
    );
    assert_eq!(diags.by_severity(Severity::Info).len(), 1);
    assert_eq!(diags.by_severity(Severity::Info)[0].line, 3);
    assert_eq!(diags.messages().len(), 2);
}

#[test]
fn format_table_single_block() {
    let config = TableConfig::default();
    let one = vec![String::from("|a|")];
    assert_eq!(beautiful_md::formatters::table::format_table(&one, &config), "|a|\n");
    let two = vec![String::from("|a|b|"), String::from("|-|:-:|")];
    assert_eq!(
        beautiful_md::formatters::table::format_table(&two, &config),
        "| a   | b   |\n| --- | :-: |\n"
    );
}

#[test]
fn pipeline_idempotent_on_mixed_document() {
    let config = Config::default();
    let input = "# Title\n\nIntro text.\n\n| Name | Age |\n|---|---|\n| Alice | 30 |\n\n## List\n\n- one\n- two\n\n1. first\n2. second\n\n```rust\nfn main() {}\n```\n";
    let (once, _) = format_markdown(input, &config).unwrap();
    let (twice, _) = format_markdown(&once, &config).unwrap();
    println!("{once}");
    assert_eq!(once, twice);
}
