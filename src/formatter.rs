//! The formatting pipeline: code blocks out, structural repair, the
//! parser/serializer round trip, the structural formatters, code blocks back.
use vstd::prelude::*;
use pulldown_cmark::{Options, Parser};
use pulldown_cmark_to_cmark::Error as SerializeError;
use crate::config::Config;
use crate::diagnostics::Diagnostics;
use crate::diagnostics::relocated;
use crate::formatters::{
    apply_all, apply_all_spec, blocks_view, extract_spec, extract_with_lines,
    restore_code_blocks_early, restore_spec,
};
use crate::preprocessor::{preprocess, preprocess_diags, preprocess_spec};
use crate::text::{join_lines, push_str, string_of};

verus! {

#[verifier::external_type_specification]
#[verifier::external_body]
pub struct ExSerializeError(SerializeError);

/// The markdown text that the parser/serializer round trip makes of `s`.
pub uninterp spec fn canonical_markdown(s: Seq<char>) -> Seq<char>;

/// Whether the parser/serializer round trip succeeds on `s`.
pub uninterp spec fn round_trip_ok(s: Seq<char>) -> bool;

/// Relies on `pulldown_cmark::Parser::new_ext` and
/// `pulldown_cmark_to_cmark::cmark`: `s` is parsed with the table, footnote,
/// strikethrough, task-list and heading-attribute extensions, and the event
/// stream is written back as markdown. Both the success of the call and the
/// text depend on `s` alone.
#[verifier::external_body]
fn cmark_round_trip(s: &str) -> (r: Result<String, SerializeError>)
    ensures
        r is Ok <==> round_trip_ok(s@),
        r matches Ok(t) ==> t@ == canonical_markdown(s@),
{
    let options = Options::ENABLE_TABLES | Options::ENABLE_FOOTNOTES | Options::ENABLE_STRIKETHROUGH
        | Options::ENABLE_TASKLISTS | Options::ENABLE_HEADING_ATTRIBUTES;
    let mut buf = String::new();
    match pulldown_cmark_to_cmark::cmark(Parser::new_ext(s, options), &mut buf, options) {
        Ok(_) => Ok(buf),
        Err(e) => Err(e),
    }
}

/// The text that extraction and repair hand to the parser.
pub open spec fn guarded_text(s: Seq<char>) -> Seq<char> {
    preprocess_spec(join_lines(extract_spec(s).out))
}

/// Formatting of `s` given the canonical text `c` that the round trip made
/// of it: the structural formatters, then the code blocks of `s` put back.
pub open spec fn finish_spec(s: Seq<char>, c: Seq<char>, config: Config) -> Seq<char> {
    restore_spec(apply_all_spec(c, config), extract_spec(s).blocks, config.code.fence_style@)
}

/// Runs the structural formatters on canonical text and puts the code
/// blocks back in place of their placeholders.
pub fn format_canonical(canonical: &str, code_blocks: &[(String, String)], config: &Config) -> (r: String)
    ensures
        r@ == restore_spec(apply_all_spec(canonical@, *config), blocks_view(code_blocks@), config.code.fence_style@),
{
    let formatted = apply_all(canonical, config);
    restore_code_blocks_early(formatted.as_str(), code_blocks, config)
}

/// Formats `content`: code blocks are taken out, the text is repaired and
/// goes through the parser/serializer round trip, the table, heading and
/// list formatters run, and the code blocks come back verbatim. The
/// diagnostics are those of the repair, numbered by source line. A failed
/// round trip is a
/// `FormattingError`.
pub fn format(content: &str, config: &Config) -> (r: Result<(String, Diagnostics), crate::error::Error>)
    ensures
        r is Ok <==> round_trip_ok(guarded_text(content@)),
        match r {
            Ok((t, d)) => t@ == finish_spec(content@, canonical_markdown(guarded_text(content@)), *config)
                && d@ == relocated(
                preprocess_diags(join_lines(extract_spec(content@).out)),
                extract_spec(content@).src,
            ),
            Err(e) => e is FormattingError,
        },
{
    let (protected_content, code_blocks, source_lines) = extract_with_lines(content);
    let (preprocessed, found) = preprocess(protected_content.as_str());
    let diagnostics = found.relocate(&source_lines);
    match cmark_round_trip(preprocessed.as_str()) {
        Ok(canonical) => {
            let final_content = format_canonical(canonical.as_str(), code_blocks.as_slice(), config);
            Ok((final_content, diagnostics))
        },
        Err(e) => {
            let mut m: Vec<char> = Vec::new();
            push_str(&mut m, "Failed to format markdown: ");
            let detail = e.to_string();
            push_str(&mut m, detail.as_str());
            Err(crate::error::Error::FormattingError(string_of(&m)))
        },
    }
}

} // verus!
