use vstd::prelude::*;

use crate::text::{chars_of, copy_range, is_space, is_space_char, starts_with, starts_with_str, trim, trim_chars};

verus! {

/// `s` with every leading repetition of the non-empty `p` removed (`str::trim_start_matches`).
pub open spec fn strip_leading_repeats(s: Seq<char>, p: Seq<char>) -> Seq<char>
    decreases s.len(),
{
    if p.len() > 0 && starts_with(s, p) {
        strip_leading_repeats(s.skip(p.len() as int), p)
    } else {
        s
    }
}

/// The first whitespace-separated word of `s`, which starts with no whitespace.
pub open spec fn first_word(s: Seq<char>) -> Seq<char>
    decreases s.len(),
{
    if s.len() == 0 || is_space(s[0]) {
        Seq::empty()
    } else {
        seq![s[0]] + first_word(s.drop_first())
    }
}

pub open spec fn is_shell_language(word: Seq<char>) -> bool {
    ||| word == "bash"@
    ||| word == "sh"@
    ||| word == "shell"@
    ||| word == "zsh"@
    ||| word == "console"@
    ||| word == "terminal"@
}

/// The info string of a code fence: what follows the backticks.
pub open spec fn fence_info(fence_line: Seq<char>) -> Seq<char> {
    trim(strip_leading_repeats(trim(fence_line), "```"@))
}

/// A Markdown code block is linted when its info string names a shell language.
pub open spec fn lints_code_block(fence_line: Seq<char>) -> bool {
    let info = fence_info(fence_line);
    info.len() > 0 && is_shell_language(first_word(info))
}

fn strip_leading_backticks(v: &[char]) -> (r: Vec<char>)
    ensures
        r@ == strip_leading_repeats(v@, "```"@),
{
    let fence = chars_of("```");
    let mut start: usize = 0;
    proof {
        reveal_strlit("```");
        assert(v@.skip(0) == v@);
    }
    while start < v.len() && starts_with_str(&v[start..v.len()], "```")
        invariant
            start <= v.len(),
            fence@ == "```"@,
            strip_leading_repeats(v@, "```"@) == strip_leading_repeats(v@.skip(start as int), "```"@),
        decreases v.len() - start,
    {
        proof {
            reveal_strlit("```");
            assert(v@.subrange(start as int, v.len() as int) == v@.skip(start as int));
            assert(v@.skip(start as int).skip(3) == v@.skip(start + 3));
        }
        start = start + 3;
    }
    proof {
        assert(v@.subrange(start as int, v.len() as int) == v@.skip(start as int));
        reveal_strlit("```");
    }
    copy_range(v, start, v.len())
}

fn first_word_exec(v: &[char]) -> (r: Vec<char>)
    ensures
        r@ == first_word(v@),
{
    let mut i: usize = 0;
    while i < v.len() && !is_space_char(v[i])
        invariant
            i <= v.len(),
            forall|j: int| 0 <= j < i ==> !is_space(#[trigger] v@[j]),
        decreases v.len() - i,
    {
        i += 1;
    }
    proof {
        lemma_first_word(v@, i as int);
    }
    copy_range(v, 0, i)
}

proof fn lemma_first_word(s: Seq<char>, i: int)
    requires
        0 <= i <= s.len(),
        forall|j: int| 0 <= j < i ==> !is_space(#[trigger] s[j]),
        i == s.len() || is_space(s[i]),
    ensures
        first_word(s) == s.take(i),
    decreases i,
{
    if i > 0 {
        lemma_first_word(s.drop_first(), i - 1);
        assert(s.take(i) == seq![s[0]] + s.drop_first().take(i - 1));
    }
}

/// Whether a Markdown fence line opens a code block whose commands are linted.
pub fn should_lint_markdown_code_block(fence_line: &str) -> (r: bool)
    ensures
        r == lints_code_block(fence_line@),
{
    let chars = chars_of(fence_line);
    let t = trim_chars(chars.as_slice());
    let stripped = strip_leading_backticks(t.as_slice());
    let info = trim_chars(stripped.as_slice());
    if info.len() == 0 {
        return false;
    }
    let word = first_word_exec(info.as_slice());
    let w = word.as_slice();
    crate::text::chars_are(w, "bash") || crate::text::chars_are(w, "sh") || crate::text::chars_are(w, "shell")
        || crate::text::chars_are(w, "zsh") || crate::text::chars_are(w, "console")
        || crate::text::chars_are(w, "terminal")
}

} // verus!
