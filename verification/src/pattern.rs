//! Pattern replacement over text, done by the `regex` crate.

use vstd::prelude::*;

verus! {

/// The text that replaces every address found in a body.
pub const REDACTION_MARKER: &'static str = "[REDACTED]";

/// What `regex` makes of a replacement: `None` where it does not accept the
/// pattern, else the text with every non-overlapping match of the pattern,
/// taken from the left, replaced.
pub uninterp spec fn regex_replace_all(
    pattern: Seq<char>,
    text: Seq<char>,
    replacement: Seq<char>,
) -> Option<Seq<char>>;

/// Compiles `pattern` and replaces each of its matches in `text`.
///
/// Trusted: calls `regex::Regex::new` and `regex::Regex::replace_all`. The
/// contract claims only that the outcome is a function of the three texts,
/// and gives that function the name `regex_replace_all`; a pattern that the
/// crate refuses gives `None`.
#[verifier::external_body]
pub(crate) fn replace_all(pattern: &str, text: &str, replacement: &str) -> (out: Option<String>)
    ensures
        out matches Some(s) ==> regex_replace_all(pattern@, text@, replacement@) == Some(s@),
        out is None ==> regex_replace_all(pattern@, text@, replacement@) is None,
{
    match regex::Regex::new(pattern) {
        Ok(re) => Some(re.replace_all(text, replacement).into_owned()),
        Err(_) => None,
    }
}

/// The body after a redaction pass with `pattern`: a pass that cannot be made
/// leaves the body as it is.
pub open spec fn redacted(pattern: Seq<char>, body: Seq<char>) -> Seq<char> {
    match regex_replace_all(pattern, body, REDACTION_MARKER@) {
        Some(s) => s,
        None => body,
    }
}

/// Puts the outcome of a replacement in place of the body; without an
/// outcome the body stays.
pub fn apply_replacement(content: &mut String, outcome: Option<String>)
    ensures
        final(content)@ == match outcome {
            Some(s) => s@,
            None => old(content)@,
        },
{
    match outcome {
        Some(s) => {
            *content = s;
        },
        None => {},
    }
}

/// Replaces every match of `pattern` in `content` by the redaction marker.
pub fn redact_with(pattern: &str, content: &mut String)
    ensures
        final(content)@ == redacted(pattern@, old(content)@),
{
    let outcome: Option<String> = replace_all(pattern, content.as_str(), REDACTION_MARKER);
    apply_replacement(content, outcome);
}

} // verus!
