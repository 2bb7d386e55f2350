use vstd::prelude::*;

use crate::pattern::{capture, compile, find, regex_capture, regex_find, Pattern};
use crate::text::{
    chars_of, copy_range, ends_with, ends_with_str, occurs_at, occurs_at_exec, starts_with,
    starts_with_str, string_of, strip_suffix, trim, trim_chars,
};

verus! {

/// How comments are written in a kind of file.
#[derive(Clone, Copy)]
pub struct CommentStyle {
    pub prefix: &'static str,
    pub suffix: &'static str,
}

pub enum IgnoreDirective {
    All,
    Specific(String),
}

/// An ignore directive as plain values.
pub enum Directive {
    All,
    Specific(Seq<char>),
}

impl View for IgnoreDirective {
    type V = Directive;

    open spec fn view(&self) -> Directive {
        match self {
            IgnoreDirective::All => Directive::All,
            IgnoreDirective::Specific(rule) => Directive::Specific(rule@),
        }
    }
}

pub const IGNORE_PATTERN: &'static str = r"locked-in:\s*ignore(?:\s*\[([^\]]*)\])?";

/// The text inside a comment that makes up the whole (trimmed) line.
pub open spec fn comment_content(line: Seq<char>, prefix: Seq<char>, suffix: Seq<char>) -> Option<Seq<char>> {
    let t = trim(line);
    if !starts_with(t, prefix) {
        None
    } else if suffix.len() > 0 && !ends_with(t, suffix) {
        None
    } else {
        let rest = t.skip(prefix.len() as int);
        if suffix.len() == 0 {
            Some(trim(rest))
        } else {
            match strip_suffix(rest, suffix) {
                Some(inner) => Some(trim(inner)),
                None => None,
            }
        }
    }
}

/// The directive written in a comment's text: the first `locked-in: ignore` in it, with
/// the rule named in brackets after it, if any.
pub open spec fn directive_in(content: Seq<char>) -> Option<Directive> {
    match regex_find(IGNORE_PATTERN@, content) {
        None => None,
        Some((_before, matched)) => Some(directive_of_capture(regex_capture(IGNORE_PATTERN@, matched, 1))),
    }
}

/// The directive that a matched `locked-in: ignore` names, from the text in its brackets:
/// every rule when there are no brackets or only blanks in them, else the one rule named.
pub open spec fn directive_of_capture(rule: Option<Seq<char>>) -> Directive {
    match rule {
        None => Directive::All,
        Some(r) => if trim(r).len() == 0 {
            Directive::All
        } else {
            Directive::Specific(trim(r))
        },
    }
}

/// The directive that a matched `locked-in: ignore` names, from the text captured in its
/// brackets, if any.
pub fn directive_from_capture(rule: Option<String>) -> (r: IgnoreDirective)
    ensures
        r@ == directive_of_capture(
            match rule {
                Some(t) => Some(t@),
                None => None,
            },
        ),
{
    match rule {
        None => IgnoreDirective::All,
        Some(rule) => {
            let rule_chars = chars_of(rule.as_str());
            let trimmed = trim_chars(rule_chars.as_slice());
            if trimmed.len() == 0 {
                IgnoreDirective::All
            } else {
                IgnoreDirective::Specific(string_of(trimmed.as_slice()))
            }
        },
    }
}

/// The directive that a line holding only a comment carries.
pub open spec fn line_directive(line: Seq<char>, prefix: Seq<char>, suffix: Seq<char>) -> Option<Directive> {
    match comment_content(line, prefix, suffix) {
        Some(content) => directive_in(content),
        None => None,
    }
}

fn comment_content_exec(line: &[char], prefix: &str, suffix: &str) -> (r: Option<Vec<char>>)
    ensures
        match r {
            Some(c) => comment_content(line@, prefix@, suffix@) == Some(c@),
            None => comment_content(line@, prefix@, suffix@) is None,
        },
{
    let t = trim_chars(line);
    if !starts_with_str(t.as_slice(), prefix) {
        return None;
    }
    let suffix_chars = chars_of(suffix);
    if suffix_chars.len() > 0 && !ends_with_str(t.as_slice(), suffix) {
        return None;
    }
    let prefix_len = chars_of(prefix).len();
    let rest = copy_range(t.as_slice(), prefix_len, t.len());
    assert(rest@ == t@.skip(prefix_len as int));
    if suffix_chars.len() == 0 {
        Some(trim_chars(rest.as_slice()))
    } else if ends_with_str(rest.as_slice(), suffix) {
        let inner = copy_range(rest.as_slice(), 0, rest.len() - suffix_chars.len());
        assert(inner@ == rest@.take(rest@.len() - suffix@.len()));
        Some(trim_chars(inner.as_slice()))
    } else {
        None
    }
}

fn directive_in_exec(ignore: &Pattern, content: &[char]) -> (r: Option<IgnoreDirective>)
    requires
        ignore@ == IGNORE_PATTERN@,
    ensures
        match r {
            Some(d) => directive_in(content@) == Some(d@),
            None => directive_in(content@) is None,
        },
{
    let text = string_of(content);
    match find(ignore, text.as_str()) {
        None => None,
        Some((_before, matched)) => Some(directive_from_capture(capture(ignore, matched.as_str(), 1))),
    }
}

/// The directive of a line that holds only a comment, such as `# locked-in: ignore` or
/// `# locked-in: ignore[yarn-frozen-lockfile]`.
pub fn is_ignore_directive(line: &str, style: &CommentStyle) -> (r: Option<IgnoreDirective>)
    ensures
        match r {
            Some(d) => line_directive(line@, style.prefix@, style.suffix@) == Some(d@),
            None => line_directive(line@, style.prefix@, style.suffix@) is None,
        },
{
    let ignore = compile(IGNORE_PATTERN);
    let chars = chars_of(line);
    line_directive_with(&ignore, chars.as_slice(), style)
}

/// `is_ignore_directive` with the directive pattern compiled beforehand.
pub fn line_directive_with(ignore: &Pattern, line: &[char], style: &CommentStyle) -> (r: Option<IgnoreDirective>)
    requires
        ignore@ == IGNORE_PATTERN@,
    ensures
        match r {
            Some(d) => line_directive(line@, style.prefix@, style.suffix@) == Some(d@),
            None => line_directive(line@, style.prefix@, style.suffix@) is None,
        },
{
    match comment_content_exec(line, style.prefix, style.suffix) {
        Some(content) => directive_in_exec(ignore, content.as_slice()),
        None => None,
    }
}

/// The last index at or below `i` where `p` occurs in `s`, or -1.
pub open spec fn last_occurrence_from(s: Seq<char>, p: Seq<char>, i: int) -> int
    decreases i + 1,
{
    if i < 0 {
        -1
    } else if occurs_at(s, p, i) {
        i
    } else {
        last_occurrence_from(s, p, i - 1)
    }
}

/// The index of the last occurrence of `p` in `s`, or -1 (`str::rfind`).
pub open spec fn rfind(s: Seq<char>, p: Seq<char>) -> int {
    last_occurrence_from(s, p, s.len() - p.len())
}

pub fn rfind_exec(s: &[char], p: &[char]) -> (r: Option<usize>)
    ensures
        match r {
            Some(i) => rfind(s@, p@) == i && occurs_at(s@, p@, i as int),
            None => rfind(s@, p@) == -1,
        },
{
    if p.len() > s.len() {
        return None;
    }
    let mut i: usize = s.len() - p.len();
    loop
        invariant
            p.len() <= s.len(),
            i <= s.len() - p.len(),
            rfind(s@, p@) == last_occurrence_from(s@, p@, i as int),
        decreases i,
    {
        if occurs_at_exec(s, p, i) {
            return Some(i);
        }
        if i == 0 {
            assert(last_occurrence_from(s@, p@, -1) == -1);
            return None;
        }
        i -= 1;
    }
}

/// The code before an inline ignore comment, and the comment's directive.
pub open spec fn inline_directive(line: Seq<char>, prefix: Seq<char>, suffix: Seq<char>) -> Option<(Seq<char>, Directive)> {
    if starts_with(trim(line), prefix) {
        None
    } else {
        match regex_find(IGNORE_PATTERN@, line) {
            None => None,
            Some((before, _matched)) => {
                let pos = rfind(before, prefix);
                if pos < 0 {
                    None
                } else if trim(line.take(pos)).len() == 0 {
                    None
                } else {
                    match line_directive(line.skip(pos), prefix, suffix) {
                        Some(d) => Some((line.take(pos), d)),
                        None => None,
                    }
                }
            },
        }
    }
}

/// Splits a line such as `bun install  # locked-in: ignore` into the code before the
/// comment and the comment's directive.
pub fn split_inline_ignore(line: &str, style: &CommentStyle) -> (r: Option<(String, IgnoreDirective)>)
    ensures
        match r {
            Some((code, d)) => inline_directive(line@, style.prefix@, style.suffix@) == Some((code@, d@)),
            None => inline_directive(line@, style.prefix@, style.suffix@) is None,
        },
{
    let ignore = compile(IGNORE_PATTERN);
    split_inline_ignore_with(&ignore, line, style)
}

/// `split_inline_ignore` with the directive pattern compiled beforehand.
pub fn split_inline_ignore_with(ignore: &Pattern, line: &str, style: &CommentStyle) -> (r: Option<(String, IgnoreDirective)>)
    requires
        ignore@ == IGNORE_PATTERN@,
    ensures
        match r {
            Some((code, d)) => inline_directive(line@, style.prefix@, style.suffix@) == Some((code@, d@)),
            None => inline_directive(line@, style.prefix@, style.suffix@) is None,
        },
{
    let chars = chars_of(line);
    let trimmed = trim_chars(chars.as_slice());
    if starts_with_str(trimmed.as_slice(), style.prefix) {
        return None;
    }
    let (before, matched) = match find(ignore, line) {
        Some(m) => m,
        None => return None,
    };
    let before_chars = chars_of(before.as_str());
    let prefix_chars = chars_of(style.prefix);
    let pos = match rfind_exec(before_chars.as_slice(), prefix_chars.as_slice()) {
        Some(pos) => pos,
        None => return None,
    };
    proof {
        assert(before@.len() + matched@.len() <= line@.len());
        assert(forall|k: int| 0 <= k < before@.len() ==> before@[k] == line@[k]) by {
            assert forall|k: int| 0 <= k < before@.len() implies before@[k] == line@[k] by {
                assert(line@.take((before@.len() + matched@.len()) as int)[k] == (before@ + matched@)[k]);
            }
        }
    }
    let code = copy_range(chars.as_slice(), 0, pos);
    let code_trimmed = trim_chars(code.as_slice());
    if code_trimmed.len() == 0 {
        return None;
    }
    let comment = copy_range(chars.as_slice(), pos, chars.len());
    assert(code@ == line@.take(pos as int));
    assert(comment@ == line@.skip(pos as int));
    match line_directive_with(ignore, comment.as_slice(), style) {
        Some(d) => Some((string_of(code.as_slice()), d)),
        None => None,
    }
}

} // verus!
