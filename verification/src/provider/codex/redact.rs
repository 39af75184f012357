//! Titles and summaries made safe to show: on one line, without secrets, and short.

use vstd::prelude::*;

use crate::text::{
    chars_of, collapse, collapsed, collapsed_is_single_spaced, is_blank, shortened, single_spaced, truncate_chars,
};

verus! {

/// A named secret and its value.
pub const SECRET_PATTERN: &'static str = r"(?i)(?<name>api[_-]?key|access[_-]?token|token|password|secret)\s*[:=]\s*[A-Za-z0-9._~+/=-]+";

/// A bearer credential.
pub const BEARER_PATTERN: &'static str = r"(?i)Bearer\s+[A-Za-z0-9._~+/=-]+";

/// A key that starts with `sk-`.
pub const KEY_PATTERN: &'static str = r"\bsk-[A-Za-z0-9_-]{12,}\b";

/// `text` with every match of the regular expression `pattern` replaced by `replacement`.
pub uninterp spec fn replaced(
    pattern: Seq<char>,
    text: Seq<char>,
    replacement: Seq<char>,
) -> Seq<char>;

/// Calls `regex::Regex::new` and `Regex::replace_all`: the text depends on the arguments alone and
/// is named `replaced`. The three patterns are regular expressions.
#[verifier::external_body]
pub(crate) fn replace_all(pattern: &str, text: &str, replacement: &str) -> (r: String)
    requires
        pattern@ == SECRET_PATTERN@ || pattern@ == BEARER_PATTERN@ || pattern@ == KEY_PATTERN@,
    ensures
        r@ == replaced(pattern@, text@, replacement@),
{
    let compiled = regex::Regex::new(pattern).expect("the pattern is a regular expression");
    compiled.replace_all(text, replacement).into_owned()
}

/// `text` with named secrets, bearer credentials and keys blotted out, in this order.
pub open spec fn redacted(text: Seq<char>) -> Seq<char> {
    replaced(
        KEY_PATTERN@,
        replaced(
            BEARER_PATTERN@,
            replaced(SECRET_PATTERN@, text, "$name=[REDACTED]"@),
            "Bearer [REDACTED]"@,
        ),
        "[REDACTED]"@,
    )
}

/// `text` on one line, without secrets and cut after `limit` characters; nothing of a blank text.
pub open spec fn sanitized(text: Seq<char>, limit: int) -> Option<Seq<char>> {
    if collapsed(text).len() == 0 {
        None
    } else {
        Some(shortened(redacted(collapsed(text)), limit))
    }
}

/// `text`, sanitized, where there is a text.
pub open spec fn sanitized_option(text: Option<Seq<char>>, limit: int) -> Option<Seq<char>> {
    match text {
        Some(value) => sanitized(value, limit),
        None => None,
    }
}

/// `text` with named secrets, bearer credentials and keys blotted out.
pub fn redact(text: &str) -> (r: String)
    ensures
        r@ == redacted(text@),
{
    let named = replace_all(SECRET_PATTERN, text, "$name=[REDACTED]");
    let bearer = replace_all(BEARER_PATTERN, named.as_str(), "Bearer [REDACTED]");
    replace_all(KEY_PATTERN, bearer.as_str(), "[REDACTED]")
}

/// A title or summary that is safe to show: on one line, without secrets, and cut after
/// `max_chars` characters.
pub fn sanitize_text(value: &str, max_chars: usize) -> (r: Option<String>)
    ensures
        match r {
            Some(s) => sanitized(value@, max_chars as int) == Some(s@),
            None => sanitized(value@, max_chars as int) is None,
        },
{
    let line = collapse(value);
    if chars_of(line.as_str()).len() == 0 {
        return None;
    }
    Some(truncate_chars(redact(line.as_str()).as_str(), max_chars))
}

/// A sanitized text is at most one character longer than its limit.
pub proof fn sanitized_is_short(text: Seq<char>, limit: int)
    requires
        limit >= 0,
        sanitized(text, limit) is Some,
    ensures
        sanitized(text, limit)->0.len() <= limit + 1,
{
}

/// A sanitized text is nothing exactly where the text is made of whitespace alone; what is redacted
/// and shortened otherwise holds no whitespace but single spaces between words.
pub proof fn only_blank_texts_are_sanitized_to_nothing(text: Seq<char>, limit: int)
    ensures
        sanitized(text, limit) is None <==> is_blank(text),
        sanitized(text, limit) matches Some(shown) ==> single_spaced(collapsed(text)) && shown
            == shortened(redacted(collapsed(text)), limit),
{
    collapsed_is_single_spaced(text);
}

} // verus!
