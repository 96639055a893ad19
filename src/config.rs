//! Formatting configuration: four independent groups of settings, each with
//! its own defaults. A configuration is read-only during a run.
use vstd::prelude::*;

verus! {

/// Settings for every formatting pass.
#[derive(Debug, Clone)]
pub struct Config {
    /// Table formatting options.
    pub tables: TableConfig,
    /// Heading formatting options.
    pub headings: HeadingConfig,
    /// List formatting options.
    pub lists: ListConfig,
    /// Code block formatting options.
    pub code: CodeConfig,
}

/// Settings for table formatting.
#[derive(Debug, Clone)]
pub struct TableConfig {
    /// Enable column alignment.
    pub align: bool,
    /// Minimum column width in characters.
    pub min_column_width: usize,
    /// Spaces on each side of cell content.
    pub padding: usize,
}

/// Settings for heading formatting.
#[derive(Debug, Clone)]
pub struct HeadingConfig {
    /// Number of blank lines before headings.
    pub blank_lines_before: usize,
    /// Number of blank lines after headings.
    pub blank_lines_after: usize,
    /// Ensure a space after the `#` run.
    pub space_after_hash: bool,
}

/// Settings for list formatting.
#[derive(Debug, Clone)]
pub struct ListConfig {
    /// Spaces per nesting level.
    pub indent_size: usize,
    /// Bullet marker (`-`, `*` or `+`).
    pub marker: String,
    /// Renumber ordered items 1, 2, 3, ...
    pub normalize_numbers: bool,
}

/// Settings for code blocks.
#[derive(Debug, Clone)]
pub struct CodeConfig {
    /// Ensure language tags are present (advisory).
    pub ensure_language_tag: bool,
    /// Code fence (three backticks or three tildes).
    pub fence_style: String,
}

impl Default for TableConfig {
    fn default() -> (r: Self)
        ensures
            r.align,
            r.min_column_width == 3,
            r.padding == 1,
    {
        TableConfig { align: true, min_column_width: 3, padding: 1 }
    }
}

impl Default for HeadingConfig {
    fn default() -> (r: Self)
        ensures
            r.blank_lines_before == 2,
            r.blank_lines_after == 1,
            r.space_after_hash,
    {
        HeadingConfig { blank_lines_before: 2, blank_lines_after: 1, space_after_hash: true }
    }
}

impl Default for ListConfig {
    fn default() -> (r: Self)
        ensures
            r.indent_size == 2,
            r.marker@ == seq!['-'],
            r.normalize_numbers,
    {
        proof {
            reveal_strlit("-");
        }
        ListConfig { indent_size: 2, marker: "-".to_string(), normalize_numbers: true }
    }
}

impl Default for CodeConfig {
    fn default() -> (r: Self)
        ensures
            !r.ensure_language_tag,
            r.fence_style@ == seq!['`', '`', '`'],
    {
        proof {
            reveal_strlit("```");
        }
        CodeConfig { ensure_language_tag: false, fence_style: "```".to_string() }
    }
}

impl Default for Config {
    fn default() -> (r: Self)
        ensures
            r.tables.align,
            r.tables.min_column_width == 3,
            r.tables.padding == 1,
            r.headings.blank_lines_before == 2,
            r.headings.blank_lines_after == 1,
            r.headings.space_after_hash,
            r.lists.indent_size == 2,
            r.lists.marker@ == seq!['-'],
            r.lists.normalize_numbers,
            !r.code.ensure_language_tag,
            r.code.fence_style@ == seq!['`', '`', '`'],
    {
        Config {
            tables: TableConfig::default(),
            headings: HeadingConfig::default(),
            lists: ListConfig::default(),
            code: CodeConfig::default(),
        }
    }
}

} // verus!
