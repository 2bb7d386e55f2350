use vstd::prelude::*;

use crate::diagnostic::{findings, Finding, Violation};
use crate::json::{as_text, json_parse, member, parse_json, JsonTree, JsonValue};
use crate::parsers::line::{limit_finding, limit_violation, MAX_VIOLATIONS_PER_FILE};
use crate::rules::{check_line, javascript_kinds, line_findings, RulePatterns};
use crate::scanner::LintContext;
use crate::text::{
    chars_of, contains, contains_str, copy_range, leading_space_len, lines, split_lines, starts_with,
    string_of, trim_start, views,
};

verus! {

// ---------------------------------------------------------------------------
// Where each script is written
// ---------------------------------------------------------------------------

/// The index of the quote that closes the string opened at index 0, scanning from `i`
/// (a backslash escapes the character after it); -1 when it is not closed.
pub open spec fn closing_quote_from(s: Seq<char>, i: int, escaped: bool) -> int
    decreases s.len() - i,
{
    if i < 0 || i >= s.len() {
        -1
    } else if escaped {
        closing_quote_from(s, i + 1, false)
    } else if s[i] == '\\' {
        closing_quote_from(s, i + 1, true)
    } else if s[i] == '"' {
        i
    } else {
        closing_quote_from(s, i + 1, false)
    }
}

/// The key of a line that starts (after indentation) with a JSON string followed by `:`.
pub open spec fn leading_key(line: Seq<char>) -> Option<Seq<char>> {
    let t = trim_start(line);
    if !starts_with(t, seq!['"']) {
        None
    } else {
        let k = closing_quote_from(t, 1, false);
        if k < 0 {
            None
        } else if starts_with(trim_start(t.skip(k + 1)), seq![':']) {
            match json_parse(t.take(k + 1)) {
                Some(doc) => as_text(doc),
                None => None,
            }
        } else {
            None
        }
    }
}

pub fn leading_json_key(line: &[char]) -> (r: Option<String>)
    ensures
        match r {
            Some(key) => leading_key(line@) == Some(key@),
            None => leading_key(line@) is None,
        },
{
    let n = leading_space_len(line);
    let t = copy_range(line, n, line.len());
    proof {
        assert(t@ == line@.skip(n as int));
        assert(t@ == trim_start(line@));
        crate::parsers::line::lemma_starts_with_char(t@, '"');
    }
    if t.len() == 0 || t[0] != '"' {
        return None;
    }
    let mut escaped = false;
    let mut i: usize = 1;
    while i < t.len()
        invariant
            1 <= i <= t.len(),
            starts_with(t@, seq!['"']),
            t@ == trim_start(line@),
            closing_quote_from(t@, 1, false) == closing_quote_from(t@, i as int, escaped),
        decreases t.len() - i,
    {
        if escaped {
            escaped = false;
        } else if t[i] == '\\' {
            escaped = true;
        } else if t[i] == '"' {
            let literal = copy_range(t.as_slice(), 0, i + 1);
            let after = copy_range(t.as_slice(), i + 1, t.len());
            let m = leading_space_len(after.as_slice());
            proof {
                assert(literal@ == t@.take(i + 1));
                assert(after@ == t@.skip(i + 1));
                crate::parsers::line::lemma_starts_with_char(trim_start(after@), ':');
            }
            proof {
                assert(closing_quote_from(t@, 1, false) == i);
                assert(after@.skip(m as int) == trim_start(after@));
            }
            let colon = m < after.len() && after[m] == ':';
            proof {
                assert(trim_start(t@.skip(i + 1)) == after@.skip(m as int));
                if m < after.len() {
                    assert(after@.skip(m as int)[0] == after@[m as int]);
                }
                assert(colon == starts_with(trim_start(t@.skip(i + 1)), seq![':']));
                assert(closing_quote_from(t@, 1, false) == i);
                assert(starts_with(t@, seq!['"']));
            }
            if colon {
                let text = string_of(literal.as_slice());
                return match parse_json(text.as_str()) {
                    Some(doc) => match doc.as_str() {
                        Some(s) => Some(s.clone()),
                        None => None,
                    },
                    None => None,
                };
            }
            return None;
        }
        i += 1;
    }
    None
}

/// The index of the first line at or after `j` that contains `p`, or -1.
pub open spec fn first_line_containing(ls: Seq<Seq<char>>, p: Seq<char>, j: int) -> int
    decreases ls.len() - j,
{
    if j < 0 || j >= ls.len() {
        -1
    } else if contains(ls[j], p) {
        j
    } else {
        first_line_containing(ls, p, j + 1)
    }
}

proof fn lemma_first_line_containing(ls: Seq<Seq<char>>, p: Seq<char>, j: int)
    ensures
        -1 <= first_line_containing(ls, p, j) < ls.len(),
        first_line_containing(ls, p, j) >= 0 ==> first_line_containing(ls, p, j) >= j,
    decreases ls.len() - j,
{
    if 0 <= j < ls.len() {
        lemma_first_line_containing(ls, p, j + 1);
    }
}

/// The index of the first line at or after `j` whose leading key is `name`, or -1.
pub open spec fn key_line_from(ls: Seq<Seq<char>>, name: Seq<char>, j: int) -> int
    decreases ls.len() - j,
{
    if j < 0 || j >= ls.len() {
        -1
    } else if leading_key(ls[j]) == Some(name) {
        j
    } else {
        key_line_from(ls, name, j + 1)
    }
}

/// The line number reported for script `name`: the first line after the line that
/// mentions `"scripts"` whose key is `name`; line 1 when there is none.
pub open spec fn script_line(content: Seq<char>, name: Seq<char>) -> int {
    let ls = lines(content);
    let start = first_line_containing(ls, "\"scripts\""@, 0);
    if start < 0 {
        1
    } else {
        let j = key_line_from(ls, name, start + 1);
        if j < 0 {
            1
        } else {
            j + 1
        }
    }
}

/// The leading keys of the lines of a `package.json`, with the index of the line that
/// first mentions `"scripts"`.
pub struct ScriptKeys {
    pub start: Option<usize>,
    pub keys: Vec<Option<String>>,
}

fn line_keys(content: &str) -> (r: ScriptKeys)
    ensures
        ({
            let ls = lines(content@);
            &&& r.keys@.len() == ls.len()
            &&& forall|j: int|
                0 <= j < ls.len() ==> match #[trigger] r.keys@[j] {
                    Some(k) => leading_key(ls[j]) == Some(k@),
                    None => leading_key(ls[j]) is None,
                }
            &&& match r.start {
                Some(s) => first_line_containing(ls, "\"scripts\""@, 0) == s,
                None => first_line_containing(ls, "\"scripts\""@, 0) == -1,
            }
        }),
{
    let chars = chars_of(content);
    let ls = split_lines(chars.as_slice());
    let ghost lv = lines(content@);
    let mut keys: Vec<Option<String>> = Vec::new();
    let mut start: Option<usize> = None;
    let mut j: usize = 0;
    while j < ls.len()
        invariant
            views(ls@) == lv,
            j <= ls.len(),
            keys@.len() == j,
            forall|q: int|
                0 <= q < j ==> match #[trigger] keys@[q] {
                    Some(k) => leading_key(lv[q]) == Some(k@),
                    None => leading_key(lv[q]) is None,
                },
            match start {
                Some(s) => s < j && first_line_containing(lv, "\"scripts\""@, 0) == s,
                None => first_line_containing(lv, "\"scripts\""@, 0) == first_line_containing(
                    lv,
                    "\"scripts\""@,
                    j as int,
                ),
            },
        decreases ls.len() - j,
    {
        assert(lv[j as int] == ls@[j as int]@);
        keys.push(leading_json_key(ls[j].as_slice()));
        if start.is_none() && contains_str(ls[j].as_slice(), "\"scripts\"") {
            start = Some(j);
        }
        j += 1;
    }
    ScriptKeys { start, keys }
}

fn script_line_exec(content: &str, keys: &ScriptKeys, name: &String) -> (r: usize)
    requires
        ({
            let ls = lines(content@);
            &&& keys.keys@.len() == ls.len()
            &&& forall|j: int|
                0 <= j < ls.len() ==> match #[trigger] keys.keys@[j] {
                    Some(k) => leading_key(ls[j]) == Some(k@),
                    None => leading_key(ls[j]) is None,
                }
            &&& match keys.start {
                Some(s) => first_line_containing(ls, "\"scripts\""@, 0) == s,
                None => first_line_containing(ls, "\"scripts\""@, 0) == -1,
            }
        }),
    ensures
        r == script_line(content@, name@),
{
    let ghost ls = lines(content@);
    let start = match keys.start {
        Some(s) => s,
        None => return 1,
    };
    proof {
        lemma_first_line_containing(ls, "\"scripts\""@, 0);
        assert(keys.start == Some(start));
        assert(first_line_containing(ls, "\"scripts\""@, 0) == start);
        assert(start < ls.len());
    }
    let name_chars = chars_of(name.as_str());
    let n = keys.keys.len();
    assert(start < n);
    let mut j = start + 1;
    while j < keys.keys.len()
        invariant
            start < keys.keys@.len(),
            start + 1 <= j <= keys.keys@.len(),
            keys.keys@.len() == ls.len(),
            ls == lines(content@),
            name_chars@ == name@,
            first_line_containing(ls, "\"scripts\""@, 0) == start,
            forall|q: int|
                0 <= q < ls.len() ==> match #[trigger] keys.keys@[q] {
                    Some(k) => leading_key(ls[q]) == Some(k@),
                    None => leading_key(ls[q]) is None,
                },
            key_line_from(ls, name@, start + 1) == key_line_from(ls, name@, j as int),
        decreases keys.keys.len() - j,
    {
        let found = match &keys.keys[j] {
            Some(k) => crate::text::chars_equal(chars_of(k.as_str()).as_slice(), name_chars.as_slice()),
            None => false,
        };
        if found {
            return j + 1;
        }
        j += 1;
    }
    1
}

// ---------------------------------------------------------------------------
// Stable ordering by line number
// ---------------------------------------------------------------------------

/// `f` placed into the line-ordered `s` after every finding on a line at or before its own.
pub open spec fn insert_by_line(s: Seq<Finding>, f: Finding) -> Seq<Finding>
    decreases s.len(),
{
    if s.len() == 0 || s.last().line_num <= f.line_num {
        s.push(f)
    } else {
        insert_by_line(s.drop_last(), f).push(s.last())
    }
}

/// The findings ordered by line number, findings on one line keeping their order
/// (`slice::sort_by_key`, a stable sort).
pub open spec fn sort_by_line(s: Seq<Finding>) -> Seq<Finding>
    decreases s.len(),
{
    if s.len() == 0 {
        Seq::empty()
    } else {
        insert_by_line(sort_by_line(s.drop_last()), s.last())
    }
}

proof fn lemma_insert_at(s: Seq<Finding>, f: Finding, p: int)
    requires
        0 <= p <= s.len(),
        p == 0 || s[p - 1].line_num <= f.line_num,
        forall|j: int| p <= j < s.len() ==> s[j].line_num > f.line_num,
    ensures
        insert_by_line(s, f) == s.insert(p, f),
    decreases s.len(),
{
    if s.len() == 0 {
        assert(s.insert(p, f) =~= s.push(f));
    } else if p == s.len() {
        assert(s.insert(p, f) =~= s.push(f));
    } else {
        lemma_insert_at(s.drop_last(), f, p);
        assert(s.insert(p, f) =~= s.drop_last().insert(p, f).push(s.last()));
    }
}

pub fn sort_violations_by_line(vs: Vec<Violation>) -> (r: Vec<Violation>)
    ensures
        findings(r@) == sort_by_line(findings(vs@)),
{
    let mut rest = vs;
    let mut sorted: Vec<Violation> = Vec::new();
    let ghost original = findings(rest@);
    let ghost mut consumed: Seq<Finding> = Seq::empty();
    while rest.len() > 0
        invariant
            original == consumed + findings(rest@),
            findings(sorted@) == sort_by_line(consumed),
        decreases rest.len(),
    {
        let ghost before = rest@;
        let v = rest.remove(0);
        proof {
            assert(findings(before) =~= seq![v@] + findings(rest@));
        }
        let ghost vv = v@;
        let ghost seen = consumed.push(vv);
        let mut p = sorted.len();
        while p > 0 && sorted[p - 1].line_num > v.line_num
            invariant
                p <= sorted.len(),
                forall|j: int| p <= j < sorted.len() ==> sorted@[j].line_num > v.line_num,
            decreases p,
        {
            p -= 1;
        }
        let ghost fs = findings(sorted@);
        proof {
            lemma_insert_at(fs, vv, p as int);
            assert(seen.drop_last() =~= consumed);
        }
        sorted.insert(p, v);
        proof {
            assert(findings(sorted@) =~= fs.insert(p as int, vv));
            assert(original =~= seen + findings(rest@));
            consumed = seen;
        }
    }
    assert(consumed + Seq::<Finding>::empty() == consumed);
    sorted
}

// ---------------------------------------------------------------------------
// Checking the scripts
// ---------------------------------------------------------------------------

/// The findings of the scripts from index `i` on, appended to `acc` in script order,
/// stopping at the per-file limit.
pub open spec fn script_findings(
    entries: Seq<(Seq<char>, JsonTree)>,
    i: int,
    acc: Seq<Finding>,
    content: Seq<char>,
    bun_frozen_lockfile: bool,
) -> Seq<Finding>
    decreases entries.len() - i,
{
    if i < 0 || i >= entries.len() {
        acc
    } else {
        match as_text(entries[i].1) {
            None => script_findings(entries, i + 1, acc, content, bun_frozen_lockfile),
            Some(script) => {
                let all = acc + line_findings(
                    javascript_kinds(script, bun_frozen_lockfile),
                    script_line(content, entries[i].0),
                    script,
                );
                if all.len() >= MAX_VIOLATIONS_PER_FILE {
                    all.take(MAX_VIOLATIONS_PER_FILE as int).push(limit_finding())
                } else {
                    script_findings(entries, i + 1, all, content, bun_frozen_lockfile)
                }
            },
        }
    }
}

/// The findings of a `package.json`: the string-valued entries of its `scripts` object go
/// through the package-manager rules, each reported on the line where its key is written,
/// and the findings are ordered by line.
pub open spec fn package_json_findings(content: Seq<char>, bun_frozen_lockfile: bool) -> Seq<Finding> {
    match json_parse(content) {
        None => Seq::empty(),
        Some(doc) => match member(doc, "scripts"@) {
            Some(JsonTree::Object(entries)) => sort_by_line(
                script_findings(entries, 0, Seq::empty(), content, bun_frozen_lockfile),
            ),
            _ => Seq::empty(),
        },
    }
}

pub fn check_package_json(content: &str, lint_context: &LintContext) -> (r: Vec<Violation>)
    ensures
        findings(r@) == package_json_findings(content@, lint_context.bun_frozen_lockfile),
{
    let value = match parse_json(content) {
        Some(v) => v,
        None => return Vec::new(),
    };
    let scripts_value = match value.get("scripts") {
        Some(s) => s,
        None => return Vec::new(),
    };
    let entries = match scripts_value {
        JsonValue::Object(fields) => fields,
        _ => return Vec::new(),
    };
    let ghost te = match scripts_value.tree() {
        JsonTree::Object(f) => f,
        _ => Seq::empty(),
    };
    assert(te.len() == entries@.len());
    assert forall|j: int| 0 <= j < entries@.len() implies te[j] == (#[trigger] entries@[j].0@, entries@[j].1.tree()) by {}
    let keys = line_keys(content);
    let patterns = RulePatterns::new();
    let ghost bun = lint_context.bun_frozen_lockfile;
    let mut violations: Vec<Violation> = Vec::new();
    let mut i: usize = 0;
    assert(findings(violations@) =~= Seq::<Finding>::empty());
    assert(package_json_findings(content@, bun) == sort_by_line(
        script_findings(te, 0, Seq::empty(), content@, bun),
    ));
    while i < entries.len()
        invariant
            package_json_findings(content@, bun) == sort_by_line(
                script_findings(te, 0, Seq::empty(), content@, bun),
            ),
            i <= entries@.len(),
            te.len() == entries@.len(),
            forall|j: int| 0 <= j < entries@.len() ==> te[j] == (#[trigger] entries@[j].0@, entries@[j].1.tree()),
            bun == lint_context.bun_frozen_lockfile,
            patterns.ready(),
            ({
                let ls = lines(content@);
                &&& keys.keys@.len() == ls.len()
                &&& forall|j: int|
                    0 <= j < ls.len() ==> match #[trigger] keys.keys@[j] {
                        Some(k) => leading_key(ls[j]) == Some(k@),
                        None => leading_key(ls[j]) is None,
                    }
                &&& match keys.start {
                    Some(s) => first_line_containing(ls, "\"scripts\""@, 0) == s,
                    None => first_line_containing(ls, "\"scripts\""@, 0) == -1,
                }
            }),
            script_findings(te, 0, Seq::empty(), content@, bun) == script_findings(
                te,
                i as int,
                findings(violations@),
                content@,
                bun,
            ),
        decreases entries.len() - i,
    {
        assert(te[i as int] == (entries@[i as int].0@, entries@[i as int].1.tree()));
        match entries[i].1.as_str() {
            None => {},
            Some(script) => {
                let line_num = script_line_exec(content, &keys, &entries[i].0);
                let mut found = check_line(&patterns, script.as_str(), line_num, lint_context.bun_frozen_lockfile);
                let ghost before = violations@;
                let ghost batch = found@;
                violations.append(&mut found);
                proof {
                    crate::rules::lemma_findings_add(before, batch);
                }
                proof {
                    assert(as_text(te[i as int].1) == Some(script@));
                    assert(script_line(content@, te[i as int].0) == line_num);
                }
                if violations.len() >= MAX_VIOLATIONS_PER_FILE {
                    let ghost all = violations@;
                    violations.truncate(MAX_VIOLATIONS_PER_FILE);
                    violations.push(limit_violation());
                    proof {
                        assert(findings(violations@) =~= findings(all).take(
                            MAX_VIOLATIONS_PER_FILE as int,
                        ).push(limit_finding()));
                    }
                    proof {
                        assert(script_findings(te, i as int, findings(before), content@, bun)
                            == findings(all).take(MAX_VIOLATIONS_PER_FILE as int).push(limit_finding()));
                    }
                    return sort_violations_by_line(violations);
                }
            },
        }
        i += 1;
    }
    sort_violations_by_line(violations)
}

} // verus!
