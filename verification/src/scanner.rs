use vstd::prelude::*;

use crate::bounded_io::{error_text, BoundedReadError, MAX_CONFIG_FILE_SIZE, MAX_SOURCE_FILE_SIZE};
use crate::context::git::GitIndexStatus;
use crate::file_types::{comment_style_for_file, has_ext, has_extension, is_package_json, package_json, style_for};
use crate::ignore_directives::CommentStyle;
use crate::order::{
    components_sorted, contains_components, has_components, key_views, sort_results_by_path, sorted_by_path,
    sorted_components,
};
use crate::parsers::line::{check_file, file_findings};
use crate::context::js_workspace::{declares, declares_member, workspace_patterns_of, workspace_patterns};
use crate::context::lockfiles::{
    expected_lockfile_paths, expected_lockfiles_for_manifest, expected_paths, javascript_lockfiles,
    lockfile_names, manifest_ecosystem, Ecosystem,
};
use crate::diagnostic::{
    file_views, finding, findings, FileFindings, FileLintResult, Finding, LintResult, Severity, Violation,
    ViolationKind,
};
use crate::messages::join as join_texts;
use crate::paths::{
    components, components_of, dedup_path_strings, dedup_paths, file_name, file_name_of, join, join_str,
    render, render_exec, root, same_components, same_path, same_path_exec, sort_path_strings, sort_paths,
};
use crate::text::string_views;
use crate::text::{chars_are, chars_of, decimal, decimal_string, lines, split_lines, starts_with, starts_with_str, string_of, trim_start, views};

verus! {

/// What the line rules need to know about the file they check.
pub struct LintContext {
    pub bun_frozen_lockfile: bool,
    pub is_markdown: bool,
    pub is_package_json: bool,
}

// ---------------------------------------------------------------------------
// Files read for the committed-lockfile check
// ---------------------------------------------------------------------------

/// A file of the repository, by its path relative to the root, with its text when it
/// could be read within the limits.
pub struct RepoFile {
    pub path: String,
    pub content: Option<String>,
}

/// The text of the first file given for `path`, if it was read.
pub open spec fn lookup(files: Seq<RepoFile>, path: Seq<char>) -> Option<Seq<char>>
    decreases files.len(),
{
    if files.len() == 0 {
        None
    } else if files[0].path@ == path {
        match files[0].content {
            Some(c) => Some(c@),
            None => None,
        }
    } else {
        lookup(files.drop_first(), path)
    }
}

pub fn lookup_file<'a>(files: &'a Vec<RepoFile>, path: &str) -> (r: Option<&'a String>)
    ensures
        match r {
            Some(c) => lookup(files@, path@) == Some(c@),
            None => lookup(files@, path@) is None,
        },
{
    let key = chars_of(path);
    let mut i: usize = 0;
    assert(files@.skip(0) == files@);
    while i < files.len()
        invariant
            i <= files.len(),
            key@ == path@,
            lookup(files@, path@) == lookup(files@.skip(i as int), path@),
        decreases files.len() - i,
    {
        assert(files@.skip(i as int)[0] == files@[i as int]);
        assert(files@.skip(i as int).drop_first() == files@.skip(i + 1));
        let name = chars_of(files[i].path.as_str());
        if crate::text::chars_equal(name.as_slice(), key.as_slice()) {
            return match &files[i].content {
                Some(c) => Some(c),
                None => None,
            };
        }
        i += 1;
    }
    None
}

// ---------------------------------------------------------------------------
// Manifest contents
// ---------------------------------------------------------------------------

pub open spec fn module_line(t: Seq<char>) -> bool {
    starts_with(t, "module "@)
}

pub open spec fn require_line(t: Seq<char>) -> bool {
    starts_with(t, "require "@) || t == "require("@ || t == "require ("@
}

/// A `go.mod` that declares its module and requires something; one without `require`
/// directives needs no `go.sum`.
pub open spec fn go_mod_needs_sum(content: Seq<char>) -> bool {
    let ls = lines(content);
    &&& exists|i: int| 0 <= i < ls.len() && module_line(trim_start(#[trigger] ls[i]))
    &&& exists|i: int|
        0 <= i < ls.len() && !module_line(trim_start(#[trigger] ls[i])) && require_line(
            trim_start(ls[i]),
        )
}

pub fn go_mod_has_module_and_require(content: &str) -> (r: bool)
    ensures
        r == go_mod_needs_sum(content@),
{
    let chars = chars_of(content);
    let ls = split_lines(chars.as_slice());
    let ghost lv = lines(content@);
    let mut has_module = false;
    let mut has_require = false;
    let mut i: usize = 0;
    while i < ls.len()
        invariant
            views(ls@) == lv,
            i <= ls.len(),
            has_module == exists|q: int| 0 <= q < i && module_line(trim_start(#[trigger] lv[q])),
            has_require == exists|q: int|
                0 <= q < i && !module_line(trim_start(#[trigger] lv[q])) && require_line(trim_start(lv[q])),
        decreases ls.len() - i,
    {
        assert(lv[i as int] == ls@[i as int]@);
        let n = crate::text::leading_space_len(ls[i].as_slice());
        let t = crate::text::copy_range(ls[i].as_slice(), n, ls[i].len());
        assert(t@ == trim_start(lv[i as int]));
        let is_module = starts_with_str(t.as_slice(), "module ");
        if is_module {
            has_module = true;
        } else if starts_with_str(t.as_slice(), "require ") || chars_are(t.as_slice(), "require(")
            || chars_are(t.as_slice(), "require (") {
            has_require = true;
        }
        i += 1;
    }
    has_module && has_require
}

/// A `Cargo.toml` (as read) that has a `[workspace]` table.
pub open spec fn cargo_workspace(content: Option<Seq<char>>) -> bool {
    match content {
        Some(t) => has_workspace_table(t),
        None => false,
    }
}

/// Some line of the text, without its leading white space, starts with `[workspace]`.
pub open spec fn has_workspace_table(t: Seq<char>) -> bool {
    exists|i: int| 0 <= i < lines(t).len() && starts_with(trim_start(#[trigger] lines(t)[i]), "[workspace]"@)
}

pub fn cargo_manifest_is_workspace(content: Option<&String>) -> (r: bool)
    ensures
        r == cargo_workspace(
            match content {
                Some(c) => Some(c@),
                None => None,
            },
        ),
{
    let text = match content {
        Some(c) => c,
        None => return false,
    };
    let chars = chars_of(text.as_str());
    let ls = split_lines(chars.as_slice());
    let ghost lv = lines(text@);
    let mut i: usize = 0;
    while i < ls.len()
        invariant
            views(ls@) == lv,
            lv == lines(text@),
            content == Some(text),
            i <= ls.len(),
            forall|q: int| 0 <= q < i ==> !starts_with(trim_start(#[trigger] lv[q]), "[workspace]"@),
        decreases ls.len() - i,
    {
        assert(lv[i as int] == ls@[i as int]@);
        let n = crate::text::leading_space_len(ls[i].as_slice());
        let t = crate::text::copy_range(ls[i].as_slice(), n, ls[i].len());
        assert(t@ == trim_start(lv[i as int]));
        if starts_with_str(t.as_slice(), "[workspace]") {
            assert(starts_with(trim_start(lines(text@)[i as int]), "[workspace]"@));
            assert(0 <= i < lines(text@).len());
            assert(has_workspace_table(text@));
            return true;
        }
        i += 1;
    }
    false
}

/// A manifest needs a lockfile unless it is a `go.mod` whose text (when it could be read)
/// has no module with requirements.
pub open spec fn needs_lockfile(manifest: Seq<char>, e: Ecosystem, files: Seq<RepoFile>) -> bool {
    if e != Ecosystem::Go {
        true
    } else {
        match lookup(files, manifest) {
            Some(t) => go_mod_needs_sum(t),
            None => true,
        }
    }
}

pub fn manifest_needs_lockfile(manifest: &str, ecosystem: Ecosystem, files: &Vec<RepoFile>) -> (r: bool)
    ensures
        r == needs_lockfile(manifest@, ecosystem, files@),
{
    if ecosystem != Ecosystem::Go {
        return true;
    }
    match lookup_file(files, manifest) {
        Some(t) => go_mod_has_module_and_require(t.as_str()),
        None => true,
    }
}

// ---------------------------------------------------------------------------
// Workspace lockfiles in ancestor directories
// ---------------------------------------------------------------------------

/// The fewest components a directory above a manifest keeps: the root directory of an
/// absolute path is never left.
pub open spec fn lowest_dir(c: Seq<Seq<char>>) -> int {
    if c.len() > 0 && c[0] == root() {
        1
    } else {
        0
    }
}

/// The directory made of the first `k` components.
pub open spec fn dir_at(c: Seq<Seq<char>>, k: int) -> Seq<char> {
    render(c.take(k))
}

/// `Cargo.lock` in each directory above the manifest, nearest first from the one with `k`
/// components, whose `Cargo.toml` (another manifest) declares a workspace.
pub open spec fn cargo_paths_from(manifest: Seq<char>, files: Seq<RepoFile>, k: int) -> Seq<Seq<char>>
    decreases k + 1,
{
    let c = components(manifest);
    if k < lowest_dir(c) || k >= c.len() {
        Seq::empty()
    } else {
        let dir = dir_at(c, k);
        let ws = join(dir, "Cargo.toml"@);
        let here: Seq<Seq<char>> = if !same_path(ws, manifest) && cargo_workspace(lookup(files, ws)) {
            seq![join(dir, "Cargo.lock"@)]
        } else {
            Seq::empty()
        };
        here + cargo_paths_from(manifest, files, k - 1)
    }
}

pub open spec fn cargo_workspace_paths(manifest: Seq<char>, files: Seq<RepoFile>) -> Seq<Seq<char>> {
    cargo_paths_from(manifest, files, components(manifest).len() - 1)
}

/// The JavaScript lockfiles of each directory above the manifest, nearest first from the
/// one with `k` components, whose workspace (another `package.json`, with its
/// `pnpm-workspace.yaml`) declares the manifest's directory a member.
pub open spec fn js_paths_from(manifest: Seq<char>, files: Seq<RepoFile>, k: int) -> Seq<Seq<char>>
    decreases k + 1,
{
    let c = components(manifest);
    if k < lowest_dir(c) || k >= c.len() {
        Seq::empty()
    } else {
        let dir = dir_at(c, k);
        let ws = join(dir, "package.json"@);
        let member_rel = render(c.subrange(k, c.len() - 1));
        let patterns = workspace_patterns_of(lookup(files, ws), lookup(files, join(dir, "pnpm-workspace.yaml"@)));
        let here: Seq<Seq<char>> = if !same_path(ws, manifest) && declares(patterns, member_rel) {
            lockfile_names(Ecosystem::JavaScript).map_values(|n: Seq<char>| join(dir, n))
        } else {
            Seq::empty()
        };
        here + js_paths_from(manifest, files, k - 1)
    }
}

pub open spec fn js_workspace_paths(manifest: Seq<char>, files: Seq<RepoFile>) -> Seq<Seq<char>> {
    js_paths_from(manifest, files, components(manifest).len() - 1)
}

fn prefix_text(c: &Vec<Vec<char>>, k: usize) -> (r: String)
    requires
        k <= c.len(),
    ensures
        r@ == render(views(c@).take(k as int)),
{
    let mut prefix: Vec<Vec<char>> = Vec::new();
    let mut q: usize = 0;
    assert(views(c@).take(0) =~= Seq::<Seq<char>>::empty());
    assert(views(prefix@) =~= Seq::<Seq<char>>::empty());
    while q < k
        invariant
            q <= k <= c.len(),
            views(prefix@) == views(c@).take(q as int),
        decreases k - q,
    {
        let ghost before = views(prefix@);
        prefix.push(crate::text::copy_range(c[q].as_slice(), 0, c[q].len()));
        assert(c@[q as int]@.subrange(0, c@[q as int]@.len() as int) == c@[q as int]@);
        assert(views(prefix@) =~= before.push(c@[q as int]@));
        assert(views(c@).take(q + 1) =~= views(c@).take(q as int).push(c@[q as int]@));
        q += 1;
    }
    let text = render_exec(&prefix);
    string_of(text.as_slice())
}

fn range_text(c: &Vec<Vec<char>>, lo: usize, hi: usize) -> (r: String)
    requires
        lo <= hi <= c.len(),
    ensures
        r@ == render(views(c@).subrange(lo as int, hi as int)),
{
    let mut part: Vec<Vec<char>> = Vec::new();
    let mut q: usize = lo;
    assert(views(part@) =~= views(c@).subrange(lo as int, lo as int));
    while q < hi
        invariant
            lo <= q <= hi <= c.len(),
            views(part@) == views(c@).subrange(lo as int, q as int),
        decreases hi - q,
    {
        let ghost before = views(part@);
        part.push(crate::text::copy_range(c[q].as_slice(), 0, c[q].len()));
        assert(c@[q as int]@.subrange(0, c@[q as int]@.len() as int) == c@[q as int]@);
        assert(views(part@) =~= before.push(c@[q as int]@));
        assert(views(c@).subrange(lo as int, q + 1) =~= views(c@).subrange(lo as int, q as int).push(
            c@[q as int]@,
        ));
        q += 1;
    }
    let text = render_exec(&part);
    string_of(text.as_slice())
}

fn lowest_dir_exec(c: &Vec<Vec<char>>) -> (r: usize)
    ensures
        r == lowest_dir(views(c@)),
{
    if c.len() > 0 && chars_are(c[0].as_slice(), "/") {
        proof {
            reveal_strlit("/");
            assert("/"@ =~= root());
        }
        1
    } else {
        proof {
            reveal_strlit("/");
            assert("/"@ =~= root());
            if c.len() > 0 {
                assert(views(c@)[0] == c@[0]@);
            }
        }
        0
    }
}

pub fn cargo_workspace_lockfile_paths(manifest: &str, files: &Vec<RepoFile>) -> (r: Vec<String>)
    ensures
        string_views(r@) == cargo_workspace_paths(manifest@, files@),
{
    let m = chars_of(manifest);
    let c = components_of(m.as_slice());
    let ghost cv = components(manifest@);
    let lo = lowest_dir_exec(&c);
    let mut out: Vec<String> = Vec::new();
    if c.len() == 0 || c.len() - 1 < lo {
        assert(cargo_workspace_paths(manifest@, files@) == Seq::<Seq<char>>::empty());
        return out;
    }
    let mut k: usize = c.len() - 1;
    assert(string_views(out@) + cargo_paths_from(manifest@, files@, k as int) =~= cargo_workspace_paths(
        manifest@,
        files@,
    ));
    loop
        invariant
            m@ == manifest@,
            views(c@) == cv,
            cv == components(manifest@),
            lo == lowest_dir(cv),
            lo <= k < c.len(),
            string_views(out@) + cargo_paths_from(manifest@, files@, k as int) == cargo_workspace_paths(
                manifest@,
                files@,
            ),
        decreases k,
    {
        let dir = prefix_text(&c, k);
        let ws = join_str(dir.as_str(), "Cargo.toml");
        let ghost before = string_views(out@);
        let ghost rest = cargo_paths_from(manifest@, files@, k - 1);
        let is_other = !same_path_exec(chars_of(ws.as_str()).as_slice(), m.as_slice());
        let found = lookup_file(files, ws.as_str());
        let ghost here: Seq<Seq<char>> = if !same_path(ws@, manifest@) && cargo_workspace(lookup(files@, ws@)) {
            seq![join(dir@, "Cargo.lock"@)]
        } else {
            Seq::empty()
        };
        assert(dir@ == dir_at(cv, k as int));
        assert(cargo_paths_from(manifest@, files@, k as int) == here + rest);
        let ghost found_text = match found {
            Some(c) => Some(c@),
            None => None,
        };
        assert(found_text == lookup(files@, ws@));
        if is_other && cargo_manifest_is_workspace(found) {
            let lock = join_str(dir.as_str(), "Cargo.lock");
            out.push(lock);
            assert(string_views(out@) =~= before.push(lock@));
            assert(before + (seq![lock@] + rest) =~= before.push(lock@) + rest);
        } else {
            assert(before + (Seq::<Seq<char>>::empty() + rest) =~= before + rest);
        }
        if k == lo {
            assert(cargo_paths_from(manifest@, files@, k - 1) == Seq::<Seq<char>>::empty());
            assert(string_views(out@) + Seq::<Seq<char>>::empty() =~= string_views(out@));
            return out;
        }
        k -= 1;
    }
}

fn read_option(files: &Vec<RepoFile>, path: &str) -> (r: Result<String, crate::bounded_io::BoundedReadError>)
    ensures
        crate::context::git::read_text(r) == lookup(files@, path@),
{
    match lookup_file(files, path) {
        Some(t) => Ok(t.clone()),
        None => Err(crate::bounded_io::BoundedReadError::Io(String::new())),
    }
}

pub fn js_workspace_lockfile_paths(manifest: &str, files: &Vec<RepoFile>) -> (r: Vec<String>)
    ensures
        string_views(r@) == js_workspace_paths(manifest@, files@),
{
    let m = chars_of(manifest);
    let c = components_of(m.as_slice());
    let ghost cv = components(manifest@);
    let lo = lowest_dir_exec(&c);
    let mut out: Vec<String> = Vec::new();
    if c.len() == 0 || c.len() - 1 < lo {
        assert(js_workspace_paths(manifest@, files@) == Seq::<Seq<char>>::empty());
        return out;
    }
    let names = javascript_lockfiles();
    let mut k: usize = c.len() - 1;
    assert(string_views(out@) + js_paths_from(manifest@, files@, k as int) =~= js_workspace_paths(
        manifest@,
        files@,
    ));
    loop
        invariant
            m@ == manifest@,
            views(c@) == cv,
            cv == components(manifest@),
            lo == lowest_dir(cv),
            lo <= k < c.len(),
            string_views(names@) == lockfile_names(Ecosystem::JavaScript),
            string_views(out@) + js_paths_from(manifest@, files@, k as int) == js_workspace_paths(
                manifest@,
                files@,
            ),
        decreases k,
    {
        let dir = prefix_text(&c, k);
        let ws = join_str(dir.as_str(), "package.json");
        let pnpm = join_str(dir.as_str(), "pnpm-workspace.yaml");
        let member_rel = range_text(&c, k, c.len() - 1);
        let ghost before = string_views(out@);
        let ghost rest = js_paths_from(manifest@, files@, k - 1);
        let is_other = !same_path_exec(chars_of(ws.as_str()).as_slice(), m.as_slice());
        assert(dir@ == dir_at(cv, k as int));
        assert(member_rel@ == render(cv.subrange(k as int, cv.len() - 1)));
        let ghost here_spec: Seq<Seq<char>> = if !same_path(ws@, manifest@) && declares(
            workspace_patterns_of(lookup(files@, ws@), lookup(files@, pnpm@)),
            member_rel@,
        ) {
            lockfile_names(Ecosystem::JavaScript).map_values(|n: Seq<char>| join(dir@, n))
        } else {
            Seq::empty()
        };
        assert(js_paths_from(manifest@, files@, k as int) == here_spec + rest);
        if is_other {
            let package_json = read_option(files, ws.as_str());
            let pnpm_yaml = read_option(files, pnpm.as_str());
            let patterns = workspace_patterns(&package_json, &pnpm_yaml);
            if declares_member(&patterns, member_rel.as_str()) {
                let ghost here = lockfile_names(Ecosystem::JavaScript).map_values(|n: Seq<char>| join(dir@, n));
                let mut i: usize = 0;
                while i < names.len()
                    invariant
                        i <= names@.len(),
                        string_views(names@) == lockfile_names(Ecosystem::JavaScript),
                        here == lockfile_names(Ecosystem::JavaScript).map_values(|n: Seq<char>| join(dir@, n)),
                        string_views(out@) == before + here.take(i as int),
                    decreases names.len() - i,
                {
                    let p = join_str(dir.as_str(), names[i].as_str());
                    let ghost prev = string_views(out@);
                    out.push(p);
                    assert(string_views(out@) =~= prev.push(p@));
                    assert(here.take(i + 1) =~= here.take(i as int).push(here[i as int]));
                    assert(here[i as int] == join(dir@, names@[i as int]@));
                    i += 1;
                }
                assert(here.take(names.len() as int) == here);
                assert(before + (here + rest) =~= before + here + rest);
            } else {
                assert(before + (Seq::<Seq<char>>::empty() + rest) =~= before + rest);
            }
        } else {
            assert(before + (Seq::<Seq<char>>::empty() + rest) =~= before + rest);
        }
        if k == lo {
            assert(js_paths_from(manifest@, files@, k - 1) == Seq::<Seq<char>>::empty());
            assert(string_views(out@) + Seq::<Seq<char>>::empty() =~= string_views(out@));
            return out;
        }
        k -= 1;
    }
}


// ---------------------------------------------------------------------------
// The committed-lockfile check
// ---------------------------------------------------------------------------

/// The lockfiles that satisfy a committed manifest: those expected beside it and, for a Cargo
/// or JavaScript workspace member, those of the workspaces above it, in `Path` order and
/// without repeats.
pub open spec fn acceptable_paths(manifest: Seq<char>, expected: Seq<Seq<char>>, files: Seq<RepoFile>) -> Seq<Seq<char>> {
    if file_name(manifest) == Some("Cargo.toml"@) {
        dedup_paths(sort_paths(expected + cargo_workspace_paths(manifest, files)))
    } else if file_name(manifest) == Some("package.json"@) {
        dedup_paths(sort_paths(expected + js_workspace_paths(manifest, files)))
    } else {
        expected
    }
}

pub fn acceptable_lockfile_paths(manifest: &str, expected: Vec<String>, files: &Vec<RepoFile>) -> (r: Vec<String>)
    ensures
        string_views(r@) == acceptable_paths(manifest@, string_views(expected@), files@),
{
    let m = chars_of(manifest);
    let (is_cargo, is_js) = match file_name_of(m.as_slice()) {
        Some(n) => (chars_are(n.as_slice(), "Cargo.toml"), chars_are(n.as_slice(), "package.json")),
        None => (false, false),
    };
    proof {
        reveal_strlit("Cargo.toml");
        reveal_strlit("package.json");
    }
    if !is_cargo && !is_js {
        return expected;
    }
    let mut more = if is_cargo {
        cargo_workspace_lockfile_paths(manifest, files)
    } else {
        js_workspace_lockfile_paths(manifest, files)
    };
    let ghost ev = string_views(expected@);
    let ghost mv = string_views(more@);
    let mut all = expected;
    all.append(&mut more);
    assert(string_views(all@) =~= ev + mv);
    let sorted = sort_path_strings(&all);
    dedup_path_strings(&sorted)
}

/// Some path of `paths` names the same path as some committed path.
pub open spec fn any_tracked(paths: Seq<Seq<char>>, in_index: Seq<Seq<char>>) -> bool {
    exists|i: int, j: int|
        0 <= i < paths.len() && 0 <= j < in_index.len() && same_path(#[trigger] paths[i], #[trigger] in_index[j])
}

/// The sorted component lists of the paths in the index, each there exactly when some
/// path of the index has it.
pub open spec fn index_lookup(sorted: Seq<Seq<Seq<char>>>, in_index: Seq<String>) -> bool {
    &&& components_sorted(sorted)
    &&& forall|x: Seq<Seq<char>>|
        #[trigger] has_components(sorted, x) <==> exists|i: int|
            0 <= i < in_index.len() && components(#[trigger] in_index[i]@) == x
}

fn any_tracked_exec(paths: &Vec<String>, in_index: &Vec<String>, sorted: &Vec<Vec<Vec<char>>>) -> (r: bool)
    requires
        index_lookup(key_views(sorted@), in_index@),
    ensures
        r == any_tracked(string_views(paths@), string_views(in_index@)),
{
    let ghost pv = string_views(paths@);
    let ghost tv = string_views(in_index@);
    let mut i: usize = 0;
    while i < paths.len()
        invariant
            i <= paths.len(),
            pv == string_views(paths@),
            tv == string_views(in_index@),
            index_lookup(key_views(sorted@), in_index@),
            forall|a: int, b: int| 0 <= a < i && 0 <= b < tv.len() ==> !same_path(#[trigger] pv[a], #[trigger] tv[b]),
        decreases paths.len() - i,
    {
        let c = chars_of(paths[i].as_str());
        let pc = components_of(c.as_slice());
        assert(pv[i as int] == paths@[i as int]@);
        if contains_components(sorted, &pc) {
            proof {
                let x = views(pc@);
                assert(has_components(key_views(sorted@), x));
                let j = choose|j: int| 0 <= j < in_index.len() && components(#[trigger] in_index@[j]@) == x;
                assert(tv[j] == in_index@[j]@);
                assert(same_path(pv[i as int], tv[j]));
            }
            return true;
        }
        proof {
            assert forall|b: int| 0 <= b < tv.len() implies !same_path(pv[i as int], #[trigger] tv[b]) by {
                assert(tv[b] == in_index@[b]@);
                if same_path(pv[i as int], tv[b]) {
                    assert(has_components(key_views(sorted@), views(pc@)));
                }
            }
        }
        i += 1;
    }
    false
}

/// The warning for a committed manifest none of whose acceptable lockfiles is committed.
pub open spec fn missing_lockfile_finding(manifest: Seq<char>, acceptable: Seq<Seq<char>>) -> Finding {
    Finding {
        severity: Severity::Warning,
        rule_id: Some("missing-tracked-lockfile"@),
        message: "Tracked manifest is missing a tracked lockfile: "@ + join_texts(acceptable, ", "@),
        line_num: 0,
        line_content: manifest,
    }
}

/// What the check reports of one committed manifest: nothing when it is no manifest, needs no
/// lockfile, or one of its acceptable lockfiles is committed; else its path under the root
/// with one warning that lists the acceptable lockfiles.
pub open spec fn manifest_report(root: Seq<char>, manifest: Seq<char>, in_index: Seq<Seq<char>>, files: Seq<RepoFile>) -> Option<FileFindings> {
    match (manifest_ecosystem(manifest), expected_paths(manifest)) {
        (Some(e), Some(expected)) => {
            let acc = acceptable_paths(manifest, expected, files);
            if !needs_lockfile(manifest, e, files) || any_tracked(acc, in_index) {
                None
            } else {
                Some(
                    FileFindings {
                        path: join(root, manifest),
                        findings: seq![missing_lockfile_finding(manifest, acc)],
                    },
                )
            }
        },
        _ => None,
    }
}

/// The reports of the first `n` committed paths, in their order.
pub open spec fn reports_upto(root: Seq<char>, in_index: Seq<Seq<char>>, files: Seq<RepoFile>, n: nat) -> Seq<FileFindings>
    decreases n,
{
    if n == 0 {
        Seq::empty()
    } else {
        let prev = reports_upto(root, in_index, files, (n - 1) as nat);
        match manifest_report(root, in_index[n - 1], in_index, files) {
            Some(r) => prev.push(r),
            None => prev,
        }
    }
}

pub open spec fn lockfile_reports(root: Seq<char>, in_index: Seq<Seq<char>>, files: Seq<RepoFile>) -> Seq<FileFindings> {
    reports_upto(root, in_index, files, in_index.len())
}

fn manifest_report_exec(
    root: &str,
    manifest: &str,
    in_index: &Vec<String>,
    sorted: &Vec<Vec<Vec<char>>>,
    files: &Vec<RepoFile>,
) -> (r: Option<FileLintResult>)
    requires
        index_lookup(key_views(sorted@), in_index@),
    ensures
        match r {
            Some(x) => manifest_report(root@, manifest@, string_views(in_index@), files@) == Some(x@),
            None => manifest_report(root@, manifest@, string_views(in_index@), files@) is None,
        },
{
    let expectation = match expected_lockfiles_for_manifest(manifest) {
        Some(x) => x,
        None => return None,
    };
    let expected = match expected_lockfile_paths(manifest) {
        Some(v) => v,
        None => return None,
    };
    if !manifest_needs_lockfile(manifest, expectation.ecosystem, files) {
        return None;
    }
    let acceptable = acceptable_lockfile_paths(manifest, expected, files);
    if any_tracked_exec(&acceptable, in_index, sorted) {
        return None;
    }
    let ghost acc = string_views(acceptable@);
    let v = Violation::new(ViolationKind::MissingTrackedLockfile { candidates: acceptable }, 0, manifest.to_owned());
    proof {
        reveal_strlit("missing-tracked-lockfile");
        assert(v@ == missing_lockfile_finding(manifest@, acc));
    }
    let violations = vec![v];
    assert(findings(violations@) =~= seq![v@]);
    Some(FileLintResult { path: join_str(root, manifest), violations })
}

/// The warning that committed lockfiles could not be checked.
pub fn git_metadata_warning(status: GitIndexStatus) -> (r: Violation)
    ensures
        r@ == finding(ViolationKind::GitMetadataUnavailable(status), 0, ".git/index"@),
{
    Violation::new(ViolationKind::GitMetadataUnavailable(status), 0, ".git/index".to_owned())
}

/// Checks that each committed manifest has a committed lockfile. `in_index` is what the Git index
/// gave (or why it could not be read); `files` holds the texts of the manifests and
/// workspace files the check reads (see `lockfile_check_reads`).
pub fn check_tracked_lockfiles(root: &str, in_index: &Result<Vec<String>, GitIndexStatus>, files: &Vec<RepoFile>) -> (r: Vec<FileLintResult>)
    ensures
        match in_index {
            Err(status) => file_views(r@) == seq![
                FileFindings {
                    path: join(root@, ".git"@),
                    findings: seq![finding(ViolationKind::GitMetadataUnavailable(*status), 0, ".git/index"@)],
                },
            ],
            Ok(t) => file_views(r@) == lockfile_reports(root@, string_views(t@), files@),
        },
{
    let t = match in_index {
        Ok(t) => t,
        Err(status) => {
            let w = git_metadata_warning(*status);
            let violations = vec![w];
            assert(findings(violations@) =~= seq![w@]);
            let out = vec![FileLintResult { path: join_str(root, ".git"), violations }];
            assert(file_views(out@) =~= seq![out@[0]@]);
            return out;
        },
    };
    let sorted = sorted_components(t);
    let ghost tv = string_views(t@);
    let mut out: Vec<FileLintResult> = Vec::new();
    let mut i: usize = 0;
    while i < t.len()
        invariant
            i <= t.len(),
            tv == string_views(t@),
            index_lookup(key_views(sorted@), t@),
            file_views(out@) == reports_upto(root@, tv, files@, i as nat),
        decreases t.len() - i,
    {
        let ghost before = file_views(out@);
        assert(tv[i as int] == t@[i as int]@);
        match manifest_report_exec(root, t[i].as_str(), t, &sorted, files) {
            Some(x) => {
                out.push(x);
                assert(file_views(out@) =~= before.push(out@[i as int - (i as int - before.len())]@));
            },
            None => {},
        }
        i += 1;
    }
    out
}


/// The workspace files the check looks up in the directory with `k` components above a
/// manifest and in each directory above that one.
pub open spec fn reads_from(manifest: Seq<char>, k: int) -> Seq<Seq<char>>
    decreases k + 1,
{
    let c = components(manifest);
    if k < lowest_dir(c) || k >= c.len() {
        Seq::empty()
    } else {
        let dir = dir_at(c, k);
        let here: Seq<Seq<char>> = if file_name(manifest) == Some("Cargo.toml"@) {
            seq![join(dir, "Cargo.toml"@)]
        } else if file_name(manifest) == Some("package.json"@) {
            seq![join(dir, "package.json"@), join(dir, "pnpm-workspace.yaml"@)]
        } else {
            Seq::empty()
        };
        here + reads_from(manifest, k - 1)
    }
}

/// The files, relative to the root, whose text the check reads for one manifest: a
/// `go.mod` itself, or the workspace files of the directories above a Cargo or JavaScript
/// manifest.
pub open spec fn manifest_reads(manifest: Seq<char>) -> Seq<Seq<char>> {
    if manifest_ecosystem(manifest) == Some(Ecosystem::Go) {
        seq![manifest]
    } else {
        reads_from(manifest, components(manifest).len() - 1)
    }
}

pub open spec fn reads_upto(in_index: Seq<Seq<char>>, n: nat) -> Seq<Seq<char>>
    decreases n,
{
    if n == 0 {
        Seq::empty()
    } else {
        reads_upto(in_index, (n - 1) as nat) + manifest_reads(in_index[n - 1])
    }
}

fn manifest_reads_exec(manifest: &str, out: &mut Vec<String>)
    ensures
        string_views(final(out)@) == string_views(old(out)@) + manifest_reads(manifest@),
{
    let ghost start = string_views(out@);
    let is_go = match expected_lockfiles_for_manifest(manifest) {
        Some(x) => x.ecosystem == Ecosystem::Go,
        None => false,
    };
    if is_go {
        out.push(manifest.to_owned());
        assert(string_views(out@) =~= start + seq![manifest@]);
        return;
    }
    let m = chars_of(manifest);
    let (is_cargo, is_js) = match file_name_of(m.as_slice()) {
        Some(n) => (chars_are(n.as_slice(), "Cargo.toml"), chars_are(n.as_slice(), "package.json")),
        None => (false, false),
    };
    let c = components_of(m.as_slice());
    let ghost cv = components(manifest@);
    let lo = lowest_dir_exec(&c);
    if c.len() == 0 || c.len() - 1 < lo {
        assert(manifest_reads(manifest@) == Seq::<Seq<char>>::empty());
        assert(string_views(out@) =~= start + Seq::<Seq<char>>::empty());
        return;
    }
    let mut k: usize = c.len() - 1;
    assert(string_views(out@) + reads_from(manifest@, k as int) =~= start + manifest_reads(manifest@));
    loop
        invariant
            views(c@) == cv,
            cv == components(manifest@),
            lo == lowest_dir(cv),
            lo <= k < c.len(),
            is_cargo == (file_name(manifest@) == Some("Cargo.toml"@)),
            is_js == (file_name(manifest@) == Some("package.json"@)),
            manifest_ecosystem(manifest@) != Some(Ecosystem::Go),
            start == string_views(old(out)@),
            string_views(out@) + reads_from(manifest@, k as int) == start + manifest_reads(manifest@),
        decreases k,
    {
        let dir = prefix_text(&c, k);
        let ghost before = string_views(out@);
        let ghost rest = reads_from(manifest@, k - 1);
        assert(dir@ == dir_at(cv, k as int));
        if is_cargo {
            let p = join_str(dir.as_str(), "Cargo.toml");
            out.push(p);
            assert(string_views(out@) =~= before + seq![p@]);
            assert(before + (seq![p@] + rest) =~= string_views(out@) + rest);
        } else if is_js {
            let p = join_str(dir.as_str(), "package.json");
            let q = join_str(dir.as_str(), "pnpm-workspace.yaml");
            out.push(p);
            out.push(q);
            assert(string_views(out@) =~= before + seq![p@, q@]);
            assert(before + (seq![p@, q@] + rest) =~= string_views(out@) + rest);
        } else {
            assert(before + (Seq::<Seq<char>>::empty() + rest) =~= before + rest);
        }
        if k == lo {
            assert(reads_from(manifest@, k - 1) == Seq::<Seq<char>>::empty());
            assert(string_views(out@) + Seq::<Seq<char>>::empty() =~= string_views(out@));
            return;
        }
        k -= 1;
    }
}

/// The files, relative to the root, whose text `check_tracked_lockfiles` needs: for each
/// path of the index in turn, those of `manifest_reads`. A file that is not given, or that
/// could not be read, counts as unreadable.
pub fn lockfile_check_reads(in_index: &Vec<String>) -> (r: Vec<String>)
    ensures
        string_views(r@) == reads_upto(string_views(in_index@), in_index.len() as nat),
{
    let ghost tv = string_views(in_index@);
    let mut out: Vec<String> = Vec::new();
    let mut i: usize = 0;
    while i < in_index.len()
        invariant
            i <= in_index.len(),
            tv == string_views(in_index@),
            string_views(out@) == reads_upto(tv, i as nat),
        decreases in_index.len() - i,
    {
        assert(tv[i as int] == in_index@[i as int]@);
        manifest_reads_exec(in_index[i].as_str(), &mut out);
        i += 1;
    }
    out
}


/// `s` with each path kept at its first occurrence only.
pub open spec fn first_occurrences(s: Seq<Seq<char>>) -> Seq<Seq<char>>
    decreases s.len(),
{
    if s.len() == 0 {
        s
    } else {
        let kept = first_occurrences(s.drop_last());
        if s.drop_last().contains(s.last()) {
            kept
        } else {
            kept.push(s.last())
        }
    }
}

proof fn lemma_first_occurrences_contains(s: Seq<Seq<char>>, x: Seq<char>)
    ensures
        first_occurrences(s).contains(x) == s.contains(x),
    decreases s.len(),
{
    if s.len() > 0 {
        lemma_first_occurrences_contains(s.drop_last(), x);
        let kept = first_occurrences(s.drop_last());
        if s.contains(x) {
            let k = choose|k: int| 0 <= k < s.len() && s[k] == x;
            if k < s.len() - 1 {
                assert(s.drop_last()[k] == x);
            }
        }
        if s.drop_last().contains(x) {
            let k = choose|k: int| 0 <= k < s.drop_last().len() && s.drop_last()[k] == x;
            assert(s[k] == x);
        }
        if !s.drop_last().contains(s.last()) && x == s.last() {
            assert(kept.push(s.last())[kept.len() as int] == x);
        }
        if !s.drop_last().contains(s.last()) && kept.contains(x) {
            let k = choose|k: int| 0 <= k < kept.len() && kept[k] == x;
            assert(kept.push(s.last())[k] == x);
        }
        if !s.drop_last().contains(s.last()) && kept.push(s.last()).contains(x) && x != s.last() {
            let k = choose|k: int| 0 <= k < kept.len() + 1 && kept.push(s.last())[k] == x;
            assert(kept[k] == x);
        }
        if s.drop_last().contains(s.last()) && x == s.last() {
            assert(s.drop_last().contains(x));
        }
        if s.contains(x) && x != s.last() {
            let k = choose|k: int| 0 <= k < s.len() && s[k] == x;
            assert(s.drop_last()[k] == x);
        }
    }
}

/// The paths with each kept at its first occurrence only: the files that the
/// tracked-lockfile check reads, each read once.
pub fn unique_in_order(v: Vec<String>) -> (r: Vec<String>)
    ensures
        string_views(r@) == first_occurrences(string_views(v@)),
{
    let ghost sv = string_views(v@);
    let mut out: Vec<String> = Vec::new();
    let mut i: usize = 0;
    assert(sv.take(0) =~= Seq::<Seq<char>>::empty());
    while i < v.len()
        invariant
            i <= v.len(),
            sv == string_views(v@),
            string_views(out@) == first_occurrences(sv.take(i as int)),
        decreases v.len() - i,
    {
        let ghost ov = string_views(out@);
        let mut seen = false;
        let mut j: usize = 0;
        while j < out.len()
            invariant
                j <= out.len(),
                i < v.len(),
                ov == string_views(out@),
                seen == exists|k: int| 0 <= k < j && ov[k] == v@[i as int]@,
            decreases out.len() - j,
        {
            assert(ov[j as int] == out@[j as int]@);
            let same = out[j] == v[i];
            if same {
                seen = true;
            }
            assert(seen == exists|k: int| 0 <= k < j + 1 && ov[k] == v@[i as int]@) by {
                if same {
                    assert(ov[j as int] == v@[i as int]@);
                }
            }
            j += 1;
        }
        proof {
            lemma_first_occurrences_contains(sv.take(i as int), sv[i as int]);
            assert(sv.take(i as int + 1).drop_last() =~= sv.take(i as int));
            assert(sv.take(i as int + 1).last() == sv[i as int]);
            assert(sv[i as int] == v@[i as int]@);
            assert(seen == ov.contains(sv[i as int]));
        }
        if !seen {
            let p = v[i].clone();
            out.push(p);
            assert(string_views(out@) =~= ov.push(sv[i as int]));
        }
        i += 1;
    }
    assert(sv.take(v.len() as int) =~= sv);
    out
}

// ---------------------------------------------------------------------------
// Linting one file
// ---------------------------------------------------------------------------

/// The most files a scan checks.
pub const MAX_FILES_TO_SCAN: usize = 100000;

/// The files a scan checks, at most `MAX_FILES_TO_SCAN` of them, and whether some were
/// left out.
pub fn cap_files<T>(files: Vec<T>) -> (r: (Vec<T>, bool))
    ensures
        r.1 == (files.len() > MAX_FILES_TO_SCAN),
        r.0@ == if files.len() > MAX_FILES_TO_SCAN { files@.take(MAX_FILES_TO_SCAN as int) } else { files@ },
{
    let exceeded = files.len() > MAX_FILES_TO_SCAN;
    let mut kept = files;
    kept.truncate(MAX_FILES_TO_SCAN);
    (kept, exceeded)
}

/// The size limit for reading a file: that of configuration files for `package.json`,
/// that of source files otherwise.
pub fn max_file_size_for(path: &str) -> (r: usize)
    ensures
        r == if package_json(path@) { MAX_CONFIG_FILE_SIZE } else { MAX_SOURCE_FILE_SIZE },
{
    if is_package_json(path) {
        MAX_CONFIG_FILE_SIZE
    } else {
        MAX_SOURCE_FILE_SIZE
    }
}

/// What the error of an unreadable input says.
pub open spec fn unreadable_message(e: BoundedReadError) -> Seq<char> {
    "Input file "@ + error_text(e) + "; refusing to skip security checks"@
}

/// The report of one scanned file: nothing for a file that is neither `package.json` nor
/// of a kind with a comment syntax; an error when the file could not be read; else the
/// findings of its text.
pub open spec fn source_report(path: Seq<char>, source: Result<String, BoundedReadError>, bun_frozen_lockfile: bool) -> Option<FileFindings> {
    if style_for(path) is None && !package_json(path) {
        None
    } else {
        match source {
            Err(e) => Some(
                FileFindings {
                    path,
                    findings: seq![
                        Finding {
                            severity: Severity::Error,
                            rule_id: Some("scan-input-unavailable"@),
                            message: unreadable_message(e),
                            line_num: 0,
                            line_content: path,
                        },
                    ],
                },
            ),
            Ok(text) => {
                let (prefix, suffix) = match style_for(path) {
                    Some(st) => st,
                    None => ("#"@, ""@),
                };
                Some(
                    FileFindings {
                        path,
                        findings: file_findings(
                            text@,
                            package_json(path),
                            has_ext(path, "md"@),
                            bun_frozen_lockfile,
                            prefix,
                            suffix,
                        ),
                    },
                )
            },
        }
    }
}

/// Lints one scanned file from its text as read within its size limit (see
/// `max_file_size_for`); `bun_frozen_lockfile` says whether the nearest `bunfig.toml` within
/// the root freezes the lockfile.
pub fn lint_source(path: &str, source: &Result<String, BoundedReadError>, bun_frozen_lockfile: bool) -> (r: Option<FileLintResult>)
    ensures
        match r {
            Some(x) => source_report(path@, *source, bun_frozen_lockfile) == Some(x@),
            None => source_report(path@, *source, bun_frozen_lockfile) is None,
        },
{
    let is_pkg = is_package_json(path);
    let style = match comment_style_for_file(path) {
        Some(st) => st,
        None => {
            if !is_pkg {
                return None;
            }
            proof {
                reveal_strlit("#");
                reveal_strlit("");
            }
            CommentStyle { prefix: "#", suffix: "" }
        },
    };
    match source {
        Err(e) => {
            let mut message = "Input file ".to_owned();
            let text = e.describe();
            message.append(text.as_str());
            message.append("; refusing to skip security checks");
            let v = Violation::error(0, message.as_str(), path, "scan-input-unavailable");
            let violations = vec![v];
            assert(findings(violations@) =~= seq![v@]);
            Some(FileLintResult { path: path.to_owned(), violations })
        },
        Ok(text) => {
            let context = LintContext {
                bun_frozen_lockfile,
                is_markdown: has_extension(path, "md"),
                is_package_json: is_pkg,
            };
            let violations = check_file(text.as_str(), &context, &style);
            Some(FileLintResult { path: path.to_owned(), violations })
        },
    }
}

// ---------------------------------------------------------------------------
// The scan's result
// ---------------------------------------------------------------------------

/// The number of findings of a severity.
pub open spec fn severity_count(fs: Seq<Finding>, severity: Severity) -> nat
    decreases fs.len(),
{
    if fs.len() == 0 {
        0
    } else {
        severity_count(fs.drop_last(), severity) + if fs.last().severity == severity { 1nat } else { 0nat }
    }
}

/// The number of findings of a severity over file reports.
pub open spec fn total_count(rs: Seq<FileFindings>, severity: Severity) -> nat
    decreases rs.len(),
{
    if rs.len() == 0 {
        0
    } else {
        total_count(rs.drop_last(), severity) + severity_count(rs.last().findings, severity)
    }
}

/// `n`, or `usize::MAX` when it is larger (a saturating count).
pub open spec fn saturated(n: nat) -> nat {
    if n > usize::MAX { usize::MAX as nat } else { n }
}

fn count_severity(vs: &Vec<Violation>, severity: Severity) -> (r: usize)
    ensures
        r == severity_count(findings(vs@), severity),
{
    let ghost fs = findings(vs@);
    let mut n: usize = 0;
    let mut i: usize = 0;
    while i < vs.len()
        invariant
            i <= vs.len(),
            fs == findings(vs@),
            n == severity_count(fs.take(i as int), severity),
            n <= i,
        decreases vs.len() - i,
    {
        assert(fs.take(i + 1).drop_last() =~= fs.take(i as int));
        assert(fs[i as int] == vs@[i as int]@);
        if vs[i].severity == severity {
            n += 1;
        }
        i += 1;
    }
    assert(fs.take(vs.len() as int) =~= fs);
    n
}

/// The warning that a repository has more files than a scan checks.
pub open spec fn file_limit_report(root: Seq<char>) -> FileFindings {
    FileFindings {
        path: root,
        findings: seq![
            Finding {
                severity: Severity::Error,
                rule_id: Some("scan-file-limit"@),
                message: "Repository exceeds the "@ + decimal(MAX_FILES_TO_SCAN as nat) + "-file scan limit"@,
                line_num: 0,
                line_content: root,
            },
        ],
    }
}

/// All reports of a scan, before sorting: those of the linted files, the file-limit error
/// when the repository had more files than are checked, then those of the lockfile check.
pub open spec fn scan_reports(root: Seq<char>, linted: Seq<FileFindings>, file_limit_exceeded: bool, lockfile: Seq<FileFindings>) -> Seq<FileFindings> {
    linted + (if file_limit_exceeded { seq![file_limit_report(root)] } else { Seq::empty() }) + lockfile
}

/// Puts a scan's reports together: the file results in path order, with the counts of
/// errors and warnings over all of them, and the number of results as `files_checked`.
pub fn finish_scan(root: &str, linted: Vec<FileLintResult>, file_limit_exceeded: bool, lockfile: Vec<FileLintResult>) -> (r: LintResult)
    ensures
        sorted_by_path(scan_reports(root@, file_views(linted@), file_limit_exceeded, file_views(lockfile@)), file_views(r.results@)),
        r.violations_found == saturated(total_count(scan_reports(root@, file_views(linted@), file_limit_exceeded, file_views(lockfile@)), Severity::Error)),
        r.warnings_found == saturated(total_count(scan_reports(root@, file_views(linted@), file_limit_exceeded, file_views(lockfile@)), Severity::Warning)),
        r.files_checked == scan_reports(root@, file_views(linted@), file_limit_exceeded, file_views(lockfile@)).len(),
{
    let ghost all_views = scan_reports(root@, file_views(linted@), file_limit_exceeded, file_views(lockfile@));
    let ghost lv = file_views(linted@);
    let ghost kv = file_views(lockfile@);
    let mut all = linted;
    if file_limit_exceeded {
        let mut message = "Repository exceeds the ".to_owned();
        let digits = decimal_string(MAX_FILES_TO_SCAN);
        message.append(digits.as_str());
        message.append("-file scan limit");
        let v = Violation::error(0, message.as_str(), root, "scan-file-limit");
        let violations = vec![v];
        assert(findings(violations@) =~= seq![v@]);
        let x = FileLintResult { path: root.to_owned(), violations };
        proof {
            reveal_strlit("scan-file-limit");
        }
        assert(x@ == file_limit_report(root@));
        all.push(x);
    }
    let mut rest = lockfile;
    let ghost mid = file_views(all@);
    all.append(&mut rest);
    assert(file_views(all@) =~= mid + kv);
    assert(file_views(all@) =~= all_views);
    let mut errors: usize = 0;
    let mut warnings: usize = 0;
    let mut i: usize = 0;
    while i < all.len()
        invariant
            i <= all.len(),
            all_views == file_views(all@),
            errors == saturated(total_count(all_views.take(i as int), Severity::Error)),
            warnings == saturated(total_count(all_views.take(i as int), Severity::Warning)),
        decreases all.len() - i,
    {
        assert(all_views.take(i + 1).drop_last() =~= all_views.take(i as int));
        assert(all_views.take(i + 1).last() == all@[i as int]@);
        let e = count_severity(&all[i].violations, Severity::Error);
        let w = count_severity(&all[i].violations, Severity::Warning);
        errors = errors.saturating_add(e);
        warnings = warnings.saturating_add(w);
        i += 1;
    }
    assert(all_views.take(all.len() as int) =~= all_views);
    let results = sort_results_by_path(&all);
    LintResult { results, violations_found: errors, warnings_found: warnings, files_checked: all.len() }
}

} // verus!
