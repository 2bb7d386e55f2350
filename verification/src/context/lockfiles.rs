use vstd::prelude::*;

use crate::paths::{file_name, file_name_of, join, join_str, parent, parent_of};
use crate::text::{chars_are, chars_of, string_of};

use crate::text::string_views;

verus! {

#[derive(Debug, Clone, Copy, PartialEq, Eq, Structural)]
pub enum Ecosystem {
    JavaScript,
    Rust,
    Go,
}

/// The manifests of an ecosystem and the lockfiles that pin them.
pub struct LockfileExpectation {
    pub ecosystem: Ecosystem,
    pub manifests: Vec<String>,
    pub lockfiles: Vec<String>,
}


pub open spec fn manifest_names(e: Ecosystem) -> Seq<Seq<char>> {
    match e {
        Ecosystem::JavaScript => seq!["package.json"@],
        Ecosystem::Rust => seq!["Cargo.toml"@],
        Ecosystem::Go => seq!["go.mod"@],
    }
}

pub open spec fn lockfile_names(e: Ecosystem) -> Seq<Seq<char>> {
    match e {
        Ecosystem::JavaScript => seq![
            "package-lock.json"@,
            "npm-shrinkwrap.json"@,
            "pnpm-lock.yaml"@,
            "yarn.lock"@,
            "bun.lockb"@,
            "bun.lock"@,
        ],
        Ecosystem::Rust => seq!["Cargo.lock"@],
        Ecosystem::Go => seq!["go.sum"@],
    }
}

/// The ecosystem whose manifest is named `name`.
pub open spec fn ecosystem_of(name: Seq<char>) -> Option<Ecosystem> {
    if name == "package.json"@ {
        Some(Ecosystem::JavaScript)
    } else if name == "Cargo.toml"@ {
        Some(Ecosystem::Rust)
    } else if name == "go.mod"@ {
        Some(Ecosystem::Go)
    } else {
        None
    }
}

pub open spec fn expectation_is(x: LockfileExpectation, e: Ecosystem) -> bool {
    &&& x.ecosystem == e
    &&& string_views(x.manifests@) == manifest_names(e)
    &&& string_views(x.lockfiles@) == lockfile_names(e)
}

fn strings(names: &[&'static str]) -> (r: Vec<String>)
    ensures
        r@.len() == names@.len(),
        forall|i: int| 0 <= i < names@.len() ==> #[trigger] r@[i]@ == names@[i]@,
{
    let mut r: Vec<String> = Vec::new();
    let mut i: usize = 0;
    while i < names.len()
        invariant
            i <= names.len(),
            r@.len() == i,
            forall|j: int| 0 <= j < i ==> #[trigger] r@[j]@ == names@[j]@,
        decreases names.len() - i,
    {
        r.push(names[i].to_owned());
        i += 1;
    }
    r
}

/// The lockfiles that pin JavaScript manifests.
pub fn javascript_lockfiles() -> (r: Vec<String>)
    ensures
        string_views(r@) == lockfile_names(Ecosystem::JavaScript),
{
    let names: [&'static str; 6] = [
        "package-lock.json",
        "npm-shrinkwrap.json",
        "pnpm-lock.yaml",
        "yarn.lock",
        "bun.lockb",
        "bun.lock",
    ];
    let r = strings(names.as_slice());
    assert(string_views(r@) =~= lockfile_names(Ecosystem::JavaScript));
    r
}

fn expectation(e: Ecosystem) -> (r: LockfileExpectation)
    ensures
        expectation_is(r, e),
{
    match e {
        Ecosystem::JavaScript => {
            let manifests = strings(["package.json"].as_slice());
            let r = LockfileExpectation { ecosystem: e, manifests, lockfiles: javascript_lockfiles() };
            assert(string_views(r.manifests@) =~= manifest_names(e));
            r
        },
        Ecosystem::Rust => {
            let manifests = strings(["Cargo.toml"].as_slice());
            let lockfiles = strings(["Cargo.lock"].as_slice());
            let r = LockfileExpectation { ecosystem: e, manifests, lockfiles };
            assert(string_views(r.manifests@) =~= manifest_names(e));
            assert(string_views(r.lockfiles@) =~= lockfile_names(e));
            r
        },
        Ecosystem::Go => {
            let manifests = strings(["go.mod"].as_slice());
            let lockfiles = strings(["go.sum"].as_slice());
            let r = LockfileExpectation { ecosystem: e, manifests, lockfiles };
            assert(string_views(r.manifests@) =~= manifest_names(e));
            assert(string_views(r.lockfiles@) =~= lockfile_names(e));
            r
        },
    }
}

/// The manifests that need a lockfile, by ecosystem: JavaScript, Rust, then Go.
pub fn lockfile_expectations() -> (r: Vec<LockfileExpectation>)
    ensures
        r@.len() == 3,
        expectation_is(r@[0], Ecosystem::JavaScript),
        expectation_is(r@[1], Ecosystem::Rust),
        expectation_is(r@[2], Ecosystem::Go),
{
    let mut r: Vec<LockfileExpectation> = Vec::new();
    r.push(expectation(Ecosystem::JavaScript));
    r.push(expectation(Ecosystem::Rust));
    r.push(expectation(Ecosystem::Go));
    r
}

/// The ecosystem of a manifest path, by its file name.
pub open spec fn manifest_ecosystem(path: Seq<char>) -> Option<Ecosystem> {
    match file_name(path) {
        Some(name) => ecosystem_of(name),
        None => None,
    }
}

pub fn expected_lockfiles_for_manifest(path: &str) -> (r: Option<LockfileExpectation>)
    ensures
        match r {
            Some(x) => manifest_ecosystem(path@) == Some(x.ecosystem) && expectation_is(x, x.ecosystem),
            None => manifest_ecosystem(path@) is None,
        },
{
    let p = chars_of(path);
    let name = match file_name_of(p.as_slice()) {
        Some(n) => n,
        None => return None,
    };
    if chars_are(name.as_slice(), "package.json") {
        Some(expectation(Ecosystem::JavaScript))
    } else if chars_are(name.as_slice(), "Cargo.toml") {
        Some(expectation(Ecosystem::Rust))
    } else if chars_are(name.as_slice(), "go.mod") {
        Some(expectation(Ecosystem::Go))
    } else {
        None
    }
}

/// The lockfiles expected beside a manifest: its ecosystem's lockfile names in the
/// manifest's directory.
pub open spec fn expected_paths(path: Seq<char>) -> Option<Seq<Seq<char>>> {
    match manifest_ecosystem(path) {
        Some(e) => match parent(path) {
            Some(dir) => Some(lockfile_names(e).map_values(|n: Seq<char>| join(dir, n))),
            None => None,
        },
        None => None,
    }
}

pub fn expected_lockfile_paths(path: &str) -> (r: Option<Vec<String>>)
    ensures
        match r {
            Some(v) => expected_paths(path@) == Some(string_views(v@)),
            None => expected_paths(path@) is None,
        },
{
    let x = match expected_lockfiles_for_manifest(path) {
        Some(x) => x,
        None => return None,
    };
    let p = chars_of(path);
    let dir_chars = match parent_of(p.as_slice()) {
        Some(d) => d,
        None => return None,
    };
    let dir = string_of(dir_chars.as_slice());
    let ghost names = lockfile_names(x.ecosystem);
    let mut out: Vec<String> = Vec::new();
    let mut i: usize = 0;
    while i < x.lockfiles.len()
        invariant
            i <= x.lockfiles@.len(),
            string_views(x.lockfiles@) == names,
            string_views(out@) == names.take(i as int).map_values(|n: Seq<char>| join(dir@, n)),
        decreases x.lockfiles.len() - i,
    {
        let joined = join_str(dir.as_str(), x.lockfiles[i].as_str());
        let ghost before = string_views(out@);
        out.push(joined);
        assert(names[i as int] == x.lockfiles@[i as int]@);
        assert(string_views(out@) =~= before.push(joined@));
        assert(names.take(i + 1).map_values(|n: Seq<char>| join(dir@, n)) =~= names.take(i as int).map_values(
            |n: Seq<char>| join(dir@, n),
        ).push(join(dir@, names[i as int])));
        i += 1;
    }
    assert(names.take(names.len() as int) == names);
    Some(out)
}

} // verus!
