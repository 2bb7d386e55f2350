use vstd::prelude::*;

verus! {

/// Whether the regular expression `pattern` matches somewhere in `haystack`
/// (`regex::Regex::new` followed by `Regex::is_match`; false when the pattern does not
/// compile).
pub uninterp spec fn regex_is_match(pattern: Seq<char>, haystack: Seq<char>) -> bool;

/// The leftmost-first match of `pattern` in `haystack`, as the text before the match and
/// the matched text (`Regex::find`; `None` when there is no match or the pattern does not
/// compile).
pub uninterp spec fn regex_find(pattern: Seq<char>, haystack: Seq<char>) -> Option<(Seq<char>, Seq<char>)>;

/// The text of capture group `group` in the leftmost-first match of `pattern` in
/// `haystack` (`Regex::captures` then `Captures::get`).
pub uninterp spec fn regex_capture(pattern: Seq<char>, haystack: Seq<char>, group: int) -> Option<Seq<char>>;

#[verifier::external_type_specification]
#[verifier::external_body]
pub struct ExRegex(regex::Regex);

/// A regular expression compiled once, kept beside the text it was compiled from. Only
/// `compile` makes one, so the expression is always that of the text.
pub struct Pattern {
    source: String,
    compiled: Option<regex::Regex>,
}

impl View for Pattern {
    type V = Seq<char>;

    /// The text of the regular expression.
    closed spec fn view(&self) -> Seq<char> {
        self.source@
    }
}

/// Calls `regex::Regex::new(source)` and keeps what it compiled (nothing when the text
/// does not compile) with the text. Claims only that the result stands for `source`.
#[verifier::external_body]
pub(crate) fn compile(source: &str) -> (r: Pattern)
    ensures
        r@ == source@,
{
    Pattern { source: source.to_owned(), compiled: regex::Regex::new(source).ok() }
}

/// Calls `Regex::is_match(haystack)` on the compiled pattern (false when it did not
/// compile). Claims only that the result is `regex_is_match` of the pattern's text and
/// the haystack.
#[verifier::external_body]
pub(crate) fn is_match(pattern: &Pattern, haystack: &str) -> (r: bool)
    ensures
        r == regex_is_match(pattern@, haystack@),
{
    match &pattern.compiled {
        Some(re) => re.is_match(haystack),
        None => false,
    }
}

/// Calls `Regex::find(haystack)` on the compiled pattern, and returns the text before the
/// match and the matched text. Claims that this is `regex_find` of the pattern's text and
/// the haystack and, as the `Match` documentation says (a match is the byte range
/// `start..end` of the haystack), that the two parts are a prefix of the haystack.
#[verifier::external_body]
pub(crate) fn find(pattern: &Pattern, haystack: &str) -> (r: Option<(String, String)>)
    ensures
        match r {
            Some((before, matched)) => {
                &&& regex_find(pattern@, haystack@) == Some((before@, matched@))
                &&& crate::text::starts_with(haystack@, before@ + matched@)
            },
            None => regex_find(pattern@, haystack@) is None,
        },
{
    match &pattern.compiled {
        Some(re) => match re.find(haystack) {
            Some(m) => Some((haystack[..m.start()].to_string(), m.as_str().to_string())),
            None => None,
        },
        None => None,
    }
}

/// Calls `Regex::captures(haystack)` on the compiled pattern and `Captures::get(group)`,
/// and returns the captured text. Claims only that the result is `regex_capture` of the
/// pattern's text, the haystack and the group.
#[verifier::external_body]
pub(crate) fn capture(pattern: &Pattern, haystack: &str, group: usize) -> (r: Option<String>)
    ensures
        match r {
            Some(text) => regex_capture(pattern@, haystack@, group as int) == Some(text@),
            None => regex_capture(pattern@, haystack@, group as int) is None,
        },
{
    match &pattern.compiled {
        Some(re) => match re.captures(haystack) {
            Some(caps) => caps.get(group).map(|m| m.as_str().to_string()),
            None => None,
        },
        None => None,
    }
}

} // verus!
