use vstd::prelude::*;

use crate::bounded_io::BoundedReadError;
use crate::context::git::{byte_len, lemma_byte_len_bounds, read_text};
use crate::json::{as_text, json_parse, member, parse_json, JsonTree, JsonValue};
use crate::paths::segments;
use crate::text::{
    chars_are, chars_of, copy_range, is_space, is_space_char, lines, split_lines, starts_with,
    string_of, strip_prefix, trim, trim_chars, views,
};

use crate::text::string_views;

verus! {

pub const MAX_WORKSPACE_PATTERNS: usize = 1000;

pub const MAX_WORKSPACE_PATTERN_LENGTH: usize = 1024;

// ---------------------------------------------------------------------------
// Glob matching
// ---------------------------------------------------------------------------

/// A glob segment matches a path segment: `*` matches any run of characters, `?` any one
/// character, anything else itself.
pub open spec fn segment_matches(p: Seq<char>, t: Seq<char>) -> bool
    decreases p.len(), t.len(),
{
    if p.len() == 0 {
        t.len() == 0
    } else if p.last() == '*' {
        segment_matches(p.drop_last(), t) || (t.len() > 0 && segment_matches(p, t.drop_last()))
    } else {
        t.len() > 0 && (p.last() == '?' || p.last() == t.last()) && segment_matches(
            p.drop_last(),
            t.drop_last(),
        )
    }
}

pub open spec fn double_star() -> Seq<char> {
    seq!['*', '*']
}

/// A sequence of glob segments matches a sequence of path segments: a `**` segment spans
/// any number of path segments, any other matches exactly one.
pub open spec fn segments_match(ps: Seq<Seq<char>>, ts: Seq<Seq<char>>) -> bool
    decreases ps.len(), ts.len(),
{
    if ps.len() == 0 {
        ts.len() == 0
    } else if ps.last() == double_star() {
        segments_match(ps.drop_last(), ts) || (ts.len() > 0 && segments_match(ps, ts.drop_last()))
    } else {
        ts.len() > 0 && segment_matches(ps.last(), ts.last()) && segments_match(
            ps.drop_last(),
            ts.drop_last(),
        )
    }
}

/// `s` without its trailing `/` characters (`str::trim_end_matches('/')`).
pub open spec fn trim_trailing_slashes(s: Seq<char>) -> Seq<char>
    decreases s.len(),
{
    if s.len() > 0 && s.last() == '/' {
        trim_trailing_slashes(s.drop_last())
    } else {
        s
    }
}

/// A workspace glob matches a `/`-separated relative path.
pub open spec fn glob_matches(pattern: Seq<char>, path: Seq<char>) -> bool {
    segments_match(segments(trim_trailing_slashes(pattern)), segments(path))
}

fn match_segment_chars(pattern: &[char], text: &[char]) -> (r: bool)
    ensures
        r == segment_matches(pattern@, text@),
{
    let n = text.len();
    let mut prev0 = true;
    let mut prev: Vec<bool> = Vec::new();
    let mut j: usize = 0;
    while j < n
        invariant
            j <= n == text.len(),
            prev@.len() == j,
            forall|q: int| 0 <= q < j ==> !prev@[q],
        decreases n - j,
    {
        prev.push(false);
        j += 1;
    }
    proof {
        assert(pattern@.take(0) =~= Seq::<char>::empty());
        assert forall|q: int| 0 <= q < n implies prev@[q] == segment_matches(pattern@.take(0), #[trigger] text@.take(q + 1)) by {}
    }
    let mut i: usize = 0;
    while i < pattern.len()
        invariant
            i <= pattern.len(),
            n == text.len(),
            prev@.len() == n,
            prev0 == segment_matches(pattern@.take(i as int), text@.take(0)),
            forall|q: int| 0 <= q < n ==> prev@[q] == segment_matches(pattern@.take(i as int), #[trigger] text@.take(q + 1)),
        decreases pattern.len() - i,
    {
        let token = pattern[i];
        let ghost p1 = pattern@.take(i + 1);
        proof {
            assert(p1.drop_last() == pattern@.take(i as int));
            assert(p1.last() == token);
            assert(text@.take(0).len() == 0);
        }
        let mut cur0: bool;
        if token == '*' {
            cur0 = prev0;
        } else {
            cur0 = false;
        }
        let mut cur: Vec<bool> = Vec::new();
        let mut last = cur0;
        let mut j: usize = 0;
        while j < n
            invariant
                j <= n == text.len(),
                prev@.len() == n,
                cur@.len() == j,
                token == pattern@[i as int],
                p1 == pattern@.take(i + 1),
                p1.drop_last() == pattern@.take(i as int),
                p1.last() == token,
                i < pattern.len(),
                prev0 == segment_matches(pattern@.take(i as int), text@.take(0)),
                forall|q: int| 0 <= q < n ==> prev@[q] == segment_matches(pattern@.take(i as int), #[trigger] text@.take(q + 1)),
                cur0 == segment_matches(p1, text@.take(0)),
                forall|q: int| 0 <= q < j ==> cur@[q] == segment_matches(p1, #[trigger] text@.take(q + 1)),
                last == segment_matches(p1, text@.take(j as int)),
            decreases n - j,
        {
            let before = if j == 0 {
                prev0
            } else {
                prev[j - 1]
            };
            proof {
                assert(text@.take(j + 1).drop_last() == text@.take(j as int));
                assert(text@.take(j + 1).last() == text@[j as int]);
                if j > 0 {
                    assert(text@.take(j as int) == text@.take((j - 1) + 1));
                }
            }
            let value = if token == '*' {
                prev[j] || last
            } else {
                before && (token == '?' || token == text[j])
            };
            cur.push(value);
            last = value;
            j += 1;
        }
        prev0 = cur0;
        prev = cur;
        i += 1;
    }
    assert(pattern@.take(pattern.len() as int) == pattern@);
    if n == 0 {
        assert(text@.take(0) == text@);
        prev0
    } else {
        assert(text@.take((n - 1) + 1) == text@);
        prev[n - 1]
    }
}

fn matches_segment(pattern: &Vec<char>, text: &Vec<char>) -> (r: bool)
    ensures
        r == segment_matches(pattern@, text@),
{
    match_segment_chars(pattern.as_slice(), text.as_slice())
}

fn is_double_star(v: &Vec<char>) -> (r: bool)
    ensures
        r == (v@ == double_star()),
{
    if v.len() == 2 && v[0] == '*' && v[1] == '*' {
        assert(v@ =~= double_star());
        true
    } else {
        if v.len() == 2 {
            assert(v@[0] != double_star()[0] || v@[1] != double_star()[1]);
        }
        false
    }
}

fn match_segments(pattern: &Vec<Vec<char>>, path: &Vec<Vec<char>>) -> (r: bool)
    ensures
        r == segments_match(views(pattern@), views(path@)),
{
    let ghost pv = views(pattern@);
    let ghost tv = views(path@);
    let n = path.len();
    let mut prev0 = true;
    let mut prev: Vec<bool> = Vec::new();
    let mut j: usize = 0;
    while j < n
        invariant
            j <= n == path.len(),
            prev@.len() == j,
            forall|q: int| 0 <= q < j ==> !prev@[q],
        decreases n - j,
    {
        prev.push(false);
        j += 1;
    }
    proof {
        assert(pv.take(0) =~= Seq::<Seq<char>>::empty());
        assert forall|q: int| 0 <= q < n implies prev@[q] == segments_match(pv.take(0), #[trigger] tv.take(q + 1)) by {}
    }
    let mut i: usize = 0;
    while i < pattern.len()
        invariant
            i <= pattern.len(),
            pv == views(pattern@),
            tv == views(path@),
            n == path.len(),
            prev@.len() == n,
            prev0 == segments_match(pv.take(i as int), tv.take(0)),
            forall|q: int| 0 <= q < n ==> prev@[q] == segments_match(pv.take(i as int), #[trigger] tv.take(q + 1)),
        decreases pattern.len() - i,
    {
        let star = is_double_star(&pattern[i]);
        let ghost p1 = pv.take(i + 1);
        proof {
            assert(p1.drop_last() == pv.take(i as int));
            assert(p1.last() == pattern@[i as int]@);
            assert(tv.take(0).len() == 0);
        }
        let cur0 = if star {
            prev0
        } else {
            false
        };
        let mut cur: Vec<bool> = Vec::new();
        let mut last = cur0;
        let mut j: usize = 0;
        while j < n
            invariant
                j <= n == path.len(),
                prev@.len() == n,
                cur@.len() == j,
                pv == views(pattern@),
                tv == views(path@),
                i < pattern.len(),
                star == (pattern@[i as int]@ == double_star()),
                p1 == pv.take(i + 1),
                p1.drop_last() == pv.take(i as int),
                p1.last() == pattern@[i as int]@,
                prev0 == segments_match(pv.take(i as int), tv.take(0)),
                forall|q: int| 0 <= q < n ==> prev@[q] == segments_match(pv.take(i as int), #[trigger] tv.take(q + 1)),
                cur0 == segments_match(p1, tv.take(0)),
                forall|q: int| 0 <= q < j ==> cur@[q] == segments_match(p1, #[trigger] tv.take(q + 1)),
                last == segments_match(p1, tv.take(j as int)),
            decreases n - j,
        {
            let before = if j == 0 {
                prev0
            } else {
                prev[j - 1]
            };
            proof {
                assert(tv.take(j + 1).drop_last() == tv.take(j as int));
                assert(tv.take(j + 1).last() == path@[j as int]@);
                if j > 0 {
                    assert(tv.take(j as int) == tv.take((j - 1) + 1));
                }
            }
            let value = if star {
                prev[j] || last
            } else {
                before && matches_segment(&pattern[i], &path[j])
            };
            cur.push(value);
            last = value;
            j += 1;
        }
        prev0 = cur0;
        prev = cur;
        i += 1;
    }
    assert(pv.take(pattern.len() as int) == pv);
    if n == 0 {
        assert(tv.take(0) == tv);
        prev0
    } else {
        assert(tv.take((n - 1) + 1) == tv);
        prev[n - 1]
    }
}

fn trim_trailing_slashes_exec(v: &[char]) -> (r: Vec<char>)
    ensures
        r@ == trim_trailing_slashes(v@),
{
    let mut n = v.len();
    assert(v@.take(n as int) == v@);
    while n > 0 && v[n - 1] == '/'
        invariant
            n <= v.len(),
            trim_trailing_slashes(v@) == trim_trailing_slashes(v@.take(n as int)),
        decreases n,
    {
        assert(v@.take(n as int).drop_last() == v@.take(n - 1));
        n -= 1;
    }
    copy_range(v, 0, n)
}

fn matches_glob(pattern: &[char], path: &[char]) -> (r: bool)
    ensures
        r == glob_matches(pattern@, path@),
{
    let trimmed = trim_trailing_slashes_exec(pattern);
    let ps = crate::paths::segments_of(trimmed.as_slice());
    let ts = crate::paths::segments_of(path);
    match_segments(&ps, &ts)
}

// ---------------------------------------------------------------------------
// Declared members
// ---------------------------------------------------------------------------

/// The relative member path as matched: backslashes as `/`, trailing `/` removed.
pub open spec fn normalized_member(member_rel: Seq<char>) -> Seq<char> {
    trim_trailing_slashes(member_rel.map_values(|c: char| if c == '\\' { '/' } else { c }))
}

/// Whether the patterns from index `i` on declare the member: the first of the first
/// `MAX_WORKSPACE_PATTERNS` patterns (each at most `MAX_WORKSPACE_PATTERN_LENGTH` bytes)
/// that is a matching negation (`!…`) excludes it; otherwise a matching positive pattern
/// includes it.
pub open spec fn declares_from(ps: Seq<Seq<char>>, rel: Seq<char>, i: int, matched: bool) -> bool
    decreases ps.len() - i,
{
    if i < 0 || i >= ps.len() || i >= MAX_WORKSPACE_PATTERNS {
        matched
    } else if byte_len(ps[i]) > MAX_WORKSPACE_PATTERN_LENGTH {
        declares_from(ps, rel, i + 1, matched)
    } else {
        match strip_prefix(ps[i], seq!['!']) {
            Some(negated) => if glob_matches(negated, rel) {
                false
            } else {
                declares_from(ps, rel, i + 1, matched)
            },
            None => declares_from(ps, rel, i + 1, matched || glob_matches(ps[i], rel)),
        }
    }
}


/// The member directory `member_rel` (relative to the workspace directory) is declared
/// by the workspace patterns.
pub open spec fn declares(patterns: Seq<Seq<char>>, member_rel: Seq<char>) -> bool {
    declares_from(patterns, normalized_member(member_rel), 0, false)
}

fn pattern_too_long(p: &String) -> (r: bool)
    ensures
        r == (byte_len(p@) > MAX_WORKSPACE_PATTERN_LENGTH),
{
    let chars = chars_of(p.as_str());
    proof {
        lemma_byte_len_bounds(p@);
    }
    if chars.len() > MAX_WORKSPACE_PATTERN_LENGTH {
        return true;
    }
    let n = p.as_str().len();
    assert(n == byte_len(p@));
    n > MAX_WORKSPACE_PATTERN_LENGTH
}

pub fn declares_member(patterns: &Vec<String>, member_rel: &str) -> (r: bool)
    ensures
        r == declares(string_views(patterns@), member_rel@),
{
    let raw = chars_of(member_rel);
    let mut replaced: Vec<char> = Vec::new();
    let mut k: usize = 0;
    while k < raw.len()
        invariant
            k <= raw.len(),
            raw@ == member_rel@,
            replaced@ == member_rel@.take(k as int).map_values(|c: char| if c == '\\' { '/' } else { c }),
        decreases raw.len() - k,
    {
        let c = raw[k];
        replaced.push(if c == '\\' { '/' } else { c });
        assert(member_rel@.take(k + 1).map_values(|c: char| if c == '\\' { '/' } else { c })
            =~= member_rel@.take(k as int).map_values(|c: char| if c == '\\' { '/' } else { c }).push(
            if c == '\\' { '/' } else { c },
        ));
        k += 1;
    }
    assert(member_rel@.take(raw.len() as int) == member_rel@);
    let rel = trim_trailing_slashes_exec(replaced.as_slice());
    let ghost ps = string_views(patterns@);
    let mut matched = false;
    let mut i: usize = 0;
    while i < patterns.len() && i < MAX_WORKSPACE_PATTERNS
        invariant
            i <= patterns.len(),
            ps == string_views(patterns@),
            rel@ == normalized_member(member_rel@),
            declares(ps, member_rel@) == declares_from(ps, rel@, i as int, matched),
        decreases patterns.len() - i,
    {
        assert(ps[i as int] == patterns@[i as int]@);
        let pattern = &patterns[i];
        if !pattern_too_long(pattern) {
            let p = chars_of(pattern.as_str());
            proof {
                crate::parsers::line::lemma_starts_with_char(p@, '!');
            }
            if p.len() > 0 && p[0] == '!' {
                let negated = copy_range(p.as_slice(), 1, p.len());
                assert(negated@ == p@.skip(1));
                if matches_glob(negated.as_slice(), rel.as_slice()) {
                    return false;
                }
            } else if matches_glob(p.as_slice(), rel.as_slice()) {
                matched = true;
            }
        }
        i += 1;
    }
    matched
}

// ---------------------------------------------------------------------------
// Where patterns are declared
// ---------------------------------------------------------------------------

/// The strings of a JSON array, the first `MAX_WORKSPACE_PATTERNS` of those no longer than
/// `MAX_WORKSPACE_PATTERN_LENGTH` bytes.
pub open spec fn kept_patterns(items: Seq<JsonTree>) -> Seq<Seq<char>>
    decreases items.len(),
{
    if items.len() == 0 {
        Seq::empty()
    } else {
        let rest = kept_patterns(items.drop_last());
        match as_text(items.last()) {
            Some(p) => if byte_len(p) <= MAX_WORKSPACE_PATTERN_LENGTH && rest.len() < MAX_WORKSPACE_PATTERNS {
                rest.push(p)
            } else {
                rest
            },
            None => rest,
        }
    }
}

/// The workspace patterns of a `package.json`: its `workspaces` array, or the `packages`
/// array of its `workspaces` object.
pub open spec fn package_json_patterns(content: Seq<char>) -> Seq<Seq<char>> {
    match json_parse(content) {
        Some(doc) => match member(doc, "workspaces"@) {
            Some(JsonTree::Array(items)) => kept_patterns(items),
            Some(w) => match member(w, "packages"@) {
                Some(JsonTree::Array(items)) => kept_patterns(items),
                _ => Seq::empty(),
            },
            None => Seq::empty(),
        },
        None => Seq::empty(),
    }
}

fn kept_patterns_exec(items: &Vec<JsonValue>) -> (r: Vec<String>)
    ensures
        string_views(r@) == kept_patterns(Seq::new(items@.len(), |i: int| items@[i].tree())),
{
    let ghost tv = Seq::new(items@.len(), |i: int| items@[i].tree());
    let mut out: Vec<String> = Vec::new();
    let mut i: usize = 0;
    assert(tv.take(0) =~= Seq::<JsonTree>::empty());
    assert(string_views(out@) =~= Seq::<Seq<char>>::empty());
    while i < items.len()
        invariant
            i <= items.len(),
            tv == Seq::new(items@.len(), |i: int| items@[i].tree()),
            string_views(out@) == kept_patterns(tv.take(i as int)),
        decreases items.len() - i,
    {
        proof {
            assert(tv.take(i + 1).drop_last() == tv.take(i as int));
            assert(tv.take(i + 1).last() == items@[i as int].tree());
        }
        let ghost before = string_views(out@);
        match items[i].as_str() {
            Some(p) => {
                if !pattern_too_long(p) && out.len() < MAX_WORKSPACE_PATTERNS {
                    out.push(p.clone());
                    assert(string_views(out@) =~= before.push(p@));
                }
            },
            None => {},
        }
        i += 1;
    }
    assert(tv.take(items.len() as int) == tv);
    out
}

pub fn patterns_from_package_json(content: &str) -> (r: Vec<String>)
    ensures
        string_views(r@) == package_json_patterns(content@),
{
    let value = match parse_json(content) {
        Some(v) => v,
        None => return Vec::new(),
    };
    let workspaces = match value.get("workspaces") {
        Some(w) => w,
        None => return Vec::new(),
    };
    match workspaces {
        JsonValue::Array(items) => {
            let ghost inner = match workspaces.tree() {
                JsonTree::Array(s) => s,
                _ => Seq::empty(),
            };
            assert(inner =~= Seq::new(items@.len(), |i: int| items@[i].tree()));
            return kept_patterns_exec(items);
        },
        _ => {},
    }
    match workspaces.get("packages") {
        Some(packages) => match packages {
            JsonValue::Array(items) => {
            let ghost inner = match packages.tree() {
                JsonTree::Array(s) => s,
                _ => Seq::empty(),
            };
            assert(inner =~= Seq::new(items@.len(), |i: int| items@[i].tree()));
            kept_patterns_exec(items)
            },
            _ => Vec::new(),
        },
        None => Vec::new(),
    }
}

/// `v` without one pair of surrounding double or single quotes.
pub open spec fn unquoted(v: Seq<char>) -> Seq<char> {
    if v.len() >= 2 && v[0] == '"' && v.last() == '"' {
        v.subrange(1, v.len() - 1)
    } else if v.len() >= 2 && v[0] == '\'' && v.last() == '\'' {
        v.subrange(1, v.len() - 1)
    } else {
        v
    }
}

fn unquote(v: &[char]) -> (r: Vec<char>)
    ensures
        r@ == unquoted(v@),
{
    if v.len() >= 2 && ((v[0] == '"' && v[v.len() - 1] == '"') || (v[0] == '\'' && v[v.len() - 1] == '\'')) {
        copy_range(v, 1, v.len() - 1)
    } else {
        copy_range(v, 0, v.len())
    }
}

/// The state of reading a `pnpm-workspace.yaml`: inside the `packages:` list, and the
/// patterns so far.
pub open spec fn pnpm_patterns_upto(ls: Seq<Seq<char>>, k: int) -> (bool, Seq<Seq<char>>)
    decreases k,
{
    if k <= 0 {
        (false, Seq::empty())
    } else {
        let (in_packages, found) = pnpm_patterns_upto(ls, k - 1);
        let line = ls[k - 1];
        let trimmed = trim(line);
        let indented = line.len() > 0 && is_space(line[0]);
        if trimmed.len() == 0 || starts_with(trimmed, seq!['#']) {
            (in_packages, found)
        } else if in_packages && starts_with(trimmed, seq!['-']) {
            let pattern = unquoted(trim(trimmed.skip(1)));
            if byte_len(pattern) <= MAX_WORKSPACE_PATTERN_LENGTH && found.len() < MAX_WORKSPACE_PATTERNS {
                (in_packages, found.push(pattern))
            } else {
                (in_packages, found)
            }
        } else {
            let still = in_packages && indented;
            (still || (!indented && trimmed == "packages:"@), found)
        }
    }
}

/// The patterns listed under the top-level `packages:` key of a `pnpm-workspace.yaml`.
pub open spec fn pnpm_patterns(content: Seq<char>) -> Seq<Seq<char>> {
    let ls = lines(content);
    pnpm_patterns_upto(ls, ls.len() as int).1
}

pub fn patterns_from_pnpm_yaml(content: &str) -> (r: Vec<String>)
    ensures
        string_views(r@) == pnpm_patterns(content@),
{
    let chars = chars_of(content);
    let ls = split_lines(chars.as_slice());
    let ghost lv = lines(content@);
    let mut patterns: Vec<String> = Vec::new();
    let mut in_packages = false;
    let mut i: usize = 0;
    assert(string_views(patterns@) =~= Seq::<Seq<char>>::empty());
    while i < ls.len()
        invariant
            views(ls@) == lv,
            i <= ls.len(),
            pnpm_patterns_upto(lv, i as int) == (in_packages, string_views(patterns@)),
        decreases ls.len() - i,
    {
        let line = &ls[i];
        assert(lv[i as int] == line@);
        let trimmed = trim_chars(line.as_slice());
        let indented = line.len() > 0 && is_space_char(line[0]);
        proof {
            crate::parsers::line::lemma_starts_with_char(trimmed@, '#');
            crate::parsers::line::lemma_starts_with_char(trimmed@, '-');
        }
        let ghost before = string_views(patterns@);
        if trimmed.len() == 0 || trimmed[0] == '#' {
        } else if in_packages && trimmed[0] == '-' {
            let item = copy_range(trimmed.as_slice(), 1, trimmed.len());
            assert(item@ == trimmed@.skip(1));
            let item_trimmed = trim_chars(item.as_slice());
            let pattern = unquote(item_trimmed.as_slice());
            let text = string_of(pattern.as_slice());
            if !pattern_too_long(&text) && patterns.len() < MAX_WORKSPACE_PATTERNS {
                patterns.push(text);
                assert(string_views(patterns@) =~= before.push(pattern@));
            }
        } else {
            let still = in_packages && indented;
            in_packages = still || (!indented && chars_are(trimmed.as_slice(), "packages:"));
        }
        i += 1;
    }
    patterns
}

/// The workspace patterns declared in a directory, from its `package.json` and its
/// `pnpm-workspace.yaml` as read (a file that could not be read declares none).
pub open spec fn workspace_patterns_of(package_json: Option<Seq<char>>, pnpm_yaml: Option<Seq<char>>) -> Seq<Seq<char>> {
    (match package_json {
        Some(c) => package_json_patterns(c),
        None => Seq::empty(),
    }) + (match pnpm_yaml {
        Some(c) => pnpm_patterns(c),
        None => Seq::empty(),
    })
}

pub fn workspace_patterns(
    package_json: &Result<String, BoundedReadError>,
    pnpm_yaml: &Result<String, BoundedReadError>,
) -> (r: Vec<String>)
    ensures
        string_views(r@) == workspace_patterns_of(read_text(*package_json), read_text(*pnpm_yaml)),
{
    let mut patterns = match package_json {
        Ok(c) => patterns_from_package_json(c.as_str()),
        Err(_) => Vec::new(),
    };
    let mut more = match pnpm_yaml {
        Ok(c) => patterns_from_pnpm_yaml(c.as_str()),
        Err(_) => Vec::new(),
    };
    let ghost (a, b) = (patterns@, more@);
    patterns.append(&mut more);
    assert(string_views(patterns@) =~= string_views(a) + string_views(b));
    patterns
}

} // verus!
