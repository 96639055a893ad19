//! Markdown normalization: fenced code is guarded, common malformations are
//! repaired (with diagnostics), the text goes through a markdown
//! parser/serializer round trip, and tables, headings and lists are
//! formatted according to a configuration.
use vstd::prelude::*;

pub mod config;
pub mod diagnostics;
pub mod error;
pub mod formatter;
pub mod formatters;
pub mod preprocessor;
pub mod text;

pub use config::Config;
pub use diagnostics::Diagnostics;
pub use error::Error;

verus! {

/// Formats markdown content according to `config`, returning the formatted
/// text and the diagnostics of the repair pass.
pub fn format_markdown(content: &str, config: &Config) -> (r: Result<(String, Diagnostics), Error>)
    ensures
        r is Ok <==> formatter::round_trip_ok(formatter::guarded_text(content@)),
        match r {
            Ok((t, d)) => t@ == formatter::finish_spec(
                content@,
                formatter::canonical_markdown(formatter::guarded_text(content@)),
                *config,
            ) && d@ == diagnostics::relocated(
                preprocessor::preprocess_diags(text::join_lines(formatters::extract_spec(content@).out)),
                formatters::extract_spec(content@).src,
            ),
            Err(e) => e is FormattingError,
        },
{
    formatter::format(content, config)
}

} // verus!
