use vstd::prelude::*;

use crate::ignore_directives::CommentStyle;
use crate::paths::{components, components_of, extension, extension_of, file_name, file_name_of};
use crate::text::{chars_are, chars_of, ends_with, ends_with_str, starts_with, starts_with_str, views};

verus! {

pub open spec fn ascii_lower(c: char) -> u32 {
    let u = c as u32;
    if 65 <= u <= 90 {
        (u + 32) as u32
    } else {
        u
    }
}

/// Equality up to ASCII case (`OsStr::eq_ignore_ascii_case`).
pub open spec fn eq_ignore_ascii_case(a: Seq<char>, b: Seq<char>) -> bool {
    a.len() == b.len() && forall|i: int| 0 <= i < a.len() ==> ascii_lower(#[trigger] a[i]) == ascii_lower(b[i])
}

fn ascii_lower_exec(c: char) -> (r: u32)
    ensures
        r == ascii_lower(c),
{
    let u = c as u32;
    if 65 <= u && u <= 90 {
        u + 32
    } else {
        u
    }
}

fn eq_ignore_ascii_case_exec(a: &[char], b: &[char]) -> (r: bool)
    ensures
        r == eq_ignore_ascii_case(a@, b@),
{
    if a.len() != b.len() {
        return false;
    }
    let mut i: usize = 0;
    while i < a.len()
        invariant
            a.len() == b.len(),
            i <= a.len(),
            forall|j: int| 0 <= j < i ==> ascii_lower(#[trigger] a@[j]) == ascii_lower(b@[j]),
        decreases a.len() - i,
    {
        if ascii_lower_exec(a[i]) != ascii_lower_exec(b[i]) {
            return false;
        }
        i += 1;
    }
    true
}

/// The path's extension is `ext`, ignoring ASCII case.
pub open spec fn has_ext(path: Seq<char>, ext: Seq<char>) -> bool {
    match extension(path) {
        Some(e) => eq_ignore_ascii_case(e, ext),
        None => false,
    }
}

pub fn has_extension(path: &str, extension: &str) -> (r: bool)
    ensures
        r == has_ext(path@, extension@),
{
    let p = chars_of(path);
    let e = chars_of(extension);
    match extension_of(p.as_slice()) {
        Some(x) => eq_ignore_ascii_case_exec(x.as_slice(), e.as_slice()),
        None => false,
    }
}

pub open spec fn shell_file(path: Seq<char>) -> bool {
    ||| has_ext(path, "sh"@)
    ||| has_ext(path, "bash"@)
    ||| has_ext(path, "zsh"@)
    ||| has_ext(path, "fish"@)
    ||| has_ext(path, "ksh"@)
    ||| has_ext(path, "csh"@)
}

pub fn is_shell_file(path: &str) -> (r: bool)
    ensures
        r == shell_file(path@),
{
    has_extension(path, "sh") || has_extension(path, "bash") || has_extension(path, "zsh")
        || has_extension(path, "fish") || has_extension(path, "ksh") || has_extension(path, "csh")
}

pub open spec fn makefile(file_name: Seq<char>) -> bool {
    ||| file_name == "Makefile"@
    ||| file_name == "makefile"@
    ||| file_name == "GNUmakefile"@
    ||| has_ext(file_name, "mk"@)
}

pub fn is_makefile(file_name: &str) -> (r: bool)
    ensures
        r == makefile(file_name@),
{
    let n = chars_of(file_name);
    chars_are(n.as_slice(), "Makefile") || chars_are(n.as_slice(), "makefile") || chars_are(
        n.as_slice(),
        "GNUmakefile",
    ) || has_extension(file_name, "mk")
}

/// The file name as text, or the empty text when the path has none.
pub open spec fn name_or_empty(path: Seq<char>) -> Seq<char> {
    match file_name(path) {
        Some(n) => n,
        None => Seq::empty(),
    }
}

fn name_or_empty_exec(path: &str) -> (r: String)
    ensures
        r@ == name_or_empty(path@),
{
    let p = chars_of(path);
    match file_name_of(p.as_slice()) {
        Some(n) => crate::text::string_of(n.as_slice()),
        None => String::new(),
    }
}

pub open spec fn package_json(path: Seq<char>) -> bool {
    file_name(path) == Some("package.json"@)
}

pub fn is_package_json(path: &str) -> (r: bool)
    ensures
        r == package_json(path@),
{
    let p = chars_of(path);
    match file_name_of(p.as_slice()) {
        Some(n) => chars_are(n.as_slice(), "package.json"),
        None => false,
    }
}

pub open spec fn dockerfile_name(name: Seq<char>) -> bool {
    starts_with(name, "Dockerfile"@) || ends_with(name, ".dockerfile"@)
}

pub open spec fn yaml(path: Seq<char>) -> bool {
    has_ext(path, "yml"@) || has_ext(path, "yaml"@)
}

/// The files that are scanned: Makefiles, Dockerfiles, Markdown, shell scripts,
/// `package.json` and GitHub Actions workflows.
pub open spec fn checked_file(path: Seq<char>) -> bool {
    let name = name_or_empty(path);
    ||| makefile(name)
    ||| dockerfile_name(name)
    ||| has_ext(path, "md"@)
    ||| shell_file(path)
    ||| package_json(path)
    ||| (yaml(path) && in_workflows_dir(path))
}

/// The file's parent directory is `.github/workflows` (its last two directory components).
pub open spec fn in_workflows_dir(path: Seq<char>) -> bool {
    let c = components(path);
    c.len() >= 3 && c[c.len() - 3] == ".github"@ && c[c.len() - 2] == "workflows"@
}

fn in_workflows_dir_exec(path: &str) -> (r: bool)
    ensures
        r == in_workflows_dir(path@),
{
    let p = chars_of(path);
    let c = components_of(p.as_slice());
    let n = c.len();
    if n < 3 {
        return false;
    }
    proof {
        assert(views(c@)[n - 3] == c@[n - 3]@);
        assert(views(c@)[n - 2] == c@[n - 2]@);
    }
    chars_are(c[n - 3].as_slice(), ".github") && chars_are(c[n - 2].as_slice(), "workflows")
}

pub fn should_check_file(path: &str) -> (r: bool)
    ensures
        r == checked_file(path@),
{
    let name = name_or_empty_exec(path);
    let name_chars = chars_of(name.as_str());
    if is_makefile(name.as_str()) {
        return true;
    }
    if starts_with_str(name_chars.as_slice(), "Dockerfile") || ends_with_str(name_chars.as_slice(), ".dockerfile") {
        return true;
    }
    if has_extension(path, "md") {
        return true;
    }
    if is_shell_file(path) {
        return true;
    }
    if is_package_json(path) {
        return true;
    }
    let is_yaml = has_extension(path, "yml") || has_extension(path, "yaml");
    is_yaml && in_workflows_dir_exec(path)
}

/// The comment syntax of a scanned file, as (prefix, suffix).
pub open spec fn style_for(path: Seq<char>) -> Option<(Seq<char>, Seq<char>)> {
    if has_ext(path, "md"@) {
        Some(("<!--"@, "-->"@))
    } else if shell_file(path) || makefile(name_or_empty(path)) || yaml(path) || dockerfile_name(
        name_or_empty(path),
    ) {
        Some(("#"@, ""@))
    } else {
        None
    }
}

pub fn comment_style_for_file(path: &str) -> (r: Option<CommentStyle>)
    ensures
        match r {
            Some(style) => style_for(path@) == Some((style.prefix@, style.suffix@)),
            None => style_for(path@) is None,
        },
{
    if has_extension(path, "md") {
        return Some(CommentStyle { prefix: "<!--", suffix: "-->" });
    }
    let name = name_or_empty_exec(path);
    if is_shell_file(path) || is_makefile(name.as_str()) {
        return Some(CommentStyle { prefix: "#", suffix: "" });
    }
    if has_extension(path, "yml") || has_extension(path, "yaml") {
        return Some(CommentStyle { prefix: "#", suffix: "" });
    }
    let name_chars = chars_of(name.as_str());
    if starts_with_str(name_chars.as_slice(), "Dockerfile") || ends_with_str(name_chars.as_slice(), ".dockerfile") {
        return Some(CommentStyle { prefix: "#", suffix: "" });
    }
    None
}

/// A directory name that is never scanned.
pub open spec fn excluded_name(c: Seq<char>) -> bool {
    ||| c == "node_modules"@
    ||| c == ".git"@
    ||| c == "target"@
    ||| c == "dist"@
    ||| c == "build"@
    ||| c == "coverage"@
    ||| c == "vendor"@
    ||| c == ".next"@
    ||| c == ".nuxt"@
    ||| c == ".turbo"@
    ||| c == ".cache"@
}

/// Paths through generated or vendored directories, and the shell script
/// `lint-package-install.sh`, are skipped.
pub open spec fn excluded(path: Seq<char>) -> bool {
    (exists|i: int| 0 <= i < components(path).len() && excluded_name(#[trigger] components(path)[i]))
        || file_name(path) == Some("lint-package-install.sh"@)
}

fn excluded_name_exec(c: &[char]) -> (r: bool)
    ensures
        r == excluded_name(c@),
{
    chars_are(c, "node_modules") || chars_are(c, ".git") || chars_are(c, "target") || chars_are(c, "dist")
        || chars_are(c, "build") || chars_are(c, "coverage") || chars_are(c, "vendor") || chars_are(
        c,
        ".next",
    ) || chars_are(c, ".nuxt") || chars_are(c, ".turbo") || chars_are(c, ".cache")
}

pub fn is_excluded(path: &str) -> (r: bool)
    ensures
        r == excluded(path@),
{
    let p = chars_of(path);
    let comps = components_of(p.as_slice());
    let ghost cv = components(path@);
    let mut i: usize = 0;
    while i < comps.len()
        invariant
            i <= comps.len(),
            views(comps@) == cv,
            cv == components(path@),
            forall|j: int| 0 <= j < i ==> !excluded_name(#[trigger] cv[j]),
        decreases comps.len() - i,
    {
        assert(cv[i as int] == comps@[i as int]@);
        if excluded_name_exec(comps[i].as_slice()) {
            return true;
        }
        i += 1;
    }
    match file_name_of(p.as_slice()) {
        Some(n) => chars_are(n.as_slice(), "lint-package-install.sh"),
        None => false,
    }
}

} // verus!
