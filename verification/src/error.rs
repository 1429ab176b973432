use vstd::prelude::*;

verus! {

/// Everything a render call can fail with. Each variant carries the offending
/// input or the collaborator's own words, so the message can name it.
#[derive(Debug)]
pub enum RenderError {
    UnknownLanguage(String),
    UnknownTheme(String),
    InvalidColor(String),
    HighlightFailure(String),
    FontError(String),
    EncodingError(String),
    UnsupportedFormat(String),
    IoFailure(String),
}

/// The human-readable message of an error, naming the offending input.
pub open spec fn spec_message(e: RenderError) -> Seq<char> {
    match e {
        RenderError::UnknownLanguage(s) => "Unknown language: '"@ + s@
            + "'. Use list_languages() to see available languages."@,
        RenderError::UnknownTheme(s) => "Unknown theme: '"@ + s@
            + "'. Use list_themes() to see available themes."@,
        RenderError::InvalidColor(s) => "Invalid color: '"@ + s@ + "'"@,
        RenderError::HighlightFailure(s) => "Highlighting error: "@ + s@,
        RenderError::FontError(s) => "Font error: "@ + s@,
        RenderError::EncodingError(s) => "Encoding failed: "@ + s@,
        RenderError::UnsupportedFormat(s) => "Unsupported output format: '"@ + s@ + "'"@,
        RenderError::IoFailure(s) => "Failed to write image: "@ + s@,
    }
}

/// Relies on the std `format!` macro: it concatenates its pieces verbatim.
#[verifier::external_body]
fn concat3(before: &str, s: &str, after: &str) -> (r: String)
    ensures
        r@ == before@ + s@ + after@,
{
    format!("{}{}{}", before, s, after)
}

/// Relies on the std `format!` macro: it concatenates its pieces verbatim.
#[verifier::external_body]
fn concat2(before: &str, s: &str) -> (r: String)
    ensures
        r@ == before@ + s@,
{
    format!("{}{}", before, s)
}

impl RenderError {
    /// The message of this error, exactly `spec_message`.
    pub fn message(&self) -> (m: String)
        ensures
            m@ == spec_message(*self),
    {
        match self {
            RenderError::UnknownLanguage(s) => concat3(
                "Unknown language: '",
                s.as_str(),
                "'. Use list_languages() to see available languages.",
            ),
            RenderError::UnknownTheme(s) => concat3(
                "Unknown theme: '",
                s.as_str(),
                "'. Use list_themes() to see available themes.",
            ),
            RenderError::InvalidColor(s) => concat3("Invalid color: '", s.as_str(), "'"),
            RenderError::HighlightFailure(s) => concat2("Highlighting error: ", s.as_str()),
            RenderError::FontError(s) => concat2("Font error: ", s.as_str()),
            RenderError::EncodingError(s) => concat2("Encoding failed: ", s.as_str()),
            RenderError::UnsupportedFormat(s) => concat3(
                "Unsupported output format: '",
                s.as_str(),
                "'",
            ),
            RenderError::IoFailure(s) => concat2("Failed to write image: ", s.as_str()),
        }
    }
}

} // verus!
