use vstd::prelude::*;

pub mod bun;
pub mod npm;
pub mod pnpm;
pub mod yarn;

pub use bun::check_bun;
pub use npm::check_npm;
pub use pnpm::check_pnpm;
pub use yarn::check_yarn;

use crate::diagnostic::{finding, findings, Finding, Violation, ViolationKind};
use crate::pattern::{compile, Pattern};
use crate::scanner::LintContext;

verus! {

/// The findings that a line with the given violation kinds reports: each names the line
/// number and the trimmed line.
pub open spec fn line_findings(kinds: Seq<ViolationKind>, line_num: int, line: Seq<char>) -> Seq<Finding> {
    kinds.map_values(|k: ViolationKind| finding(k, line_num, crate::text::trim(line)))
}

pub proof fn lemma_line_findings_add(a: Seq<ViolationKind>, b: Seq<ViolationKind>, n: int, line: Seq<char>)
    ensures
        line_findings(a + b, n, line) == line_findings(a, n, line) + line_findings(b, n, line),
{
    assert(line_findings(a + b, n, line) =~= line_findings(a, n, line) + line_findings(b, n, line));
}

pub proof fn lemma_findings_add(a: Seq<Violation>, b: Seq<Violation>)
    ensures
        findings(a + b) == findings(a) + findings(b),
{
    assert(findings(a + b) =~= findings(a) + findings(b));
}

/// The violation kinds that the JavaScript package-manager rules report for one line.
pub open spec fn javascript_kinds(line: Seq<char>, bun_frozen_lockfile: bool) -> Seq<ViolationKind> {
    npm::npm_kinds(line) + pnpm::pnpm_kinds(line) + yarn::yarn_kinds(line) + bun::bun_kinds(
        line,
        bun_frozen_lockfile,
    )
}

/// The compiled patterns of the package-manager rules.
pub struct RulePatterns {
    pub npm_install: Pattern,
    pub version_pin: Pattern,
    pub bare_npm_install: Pattern,
    pub pnpm_install: Pattern,
    pub pnpm_add: Pattern,
    pub yarn_install: Pattern,
    pub yarn_frozen: Pattern,
    pub yarn_add: Pattern,
    pub bun_install: Pattern,
    pub bun_add: Pattern,
}

impl RulePatterns {
    /// Each pattern stands for the rule pattern of its name.
    pub open spec fn ready(&self) -> bool {
        &&& self.npm_install@ == npm::NPM_INSTALL@
        &&& self.version_pin@ == npm::VERSION_PIN@
        &&& self.bare_npm_install@ == npm::BARE_NPM_INSTALL@
        &&& self.pnpm_install@ == pnpm::PNPM_INSTALL@
        &&& self.pnpm_add@ == pnpm::PNPM_ADD@
        &&& self.yarn_install@ == yarn::YARN_INSTALL@
        &&& self.yarn_frozen@ == yarn::YARN_FROZEN@
        &&& self.yarn_add@ == yarn::YARN_ADD@
        &&& self.bun_install@ == bun::BUN_INSTALL@
        &&& self.bun_add@ == bun::BUN_ADD@
    }

    /// Compiles the rules' patterns once, for many lines.
    pub fn new() -> (r: Self)
        ensures
            r.ready(),
    {
        RulePatterns {
            npm_install: compile(npm::NPM_INSTALL),
            version_pin: compile(npm::VERSION_PIN),
            bare_npm_install: compile(npm::BARE_NPM_INSTALL),
            pnpm_install: compile(pnpm::PNPM_INSTALL),
            pnpm_add: compile(pnpm::PNPM_ADD),
            yarn_install: compile(yarn::YARN_INSTALL),
            yarn_frozen: compile(yarn::YARN_FROZEN),
            yarn_add: compile(yarn::YARN_ADD),
            bun_install: compile(bun::BUN_INSTALL),
            bun_add: compile(bun::BUN_ADD),
        }
    }
}

/// All the package-manager rules on one line: npm, pnpm, yarn, then bun.
pub fn check_line(patterns: &RulePatterns, line: &str, line_num: usize, bun_frozen_lockfile: bool) -> (r: Vec<Violation>)
    requires
        patterns.ready(),
    ensures
        findings(r@) == line_findings(javascript_kinds(line@, bun_frozen_lockfile), line_num as int, line@),
{
    let mut violations = npm::check_npm_with(patterns, line, line_num);
    let mut pnpm = pnpm::check_pnpm_with(patterns, line, line_num);
    let mut yarn = yarn::check_yarn_with(patterns, line, line_num);
    let mut bun = bun::check_bun_with(patterns, line, line_num, bun_frozen_lockfile);
    let ghost (a, b, c, d) = (violations@, pnpm@, yarn@, bun@);
    violations.append(&mut pnpm);
    violations.append(&mut yarn);
    violations.append(&mut bun);
    proof {
        let n = line_num as int;
        let l = line@;
        lemma_findings_add(a, b);
        lemma_findings_add(a + b, c);
        lemma_findings_add(a + b + c, d);
        lemma_line_findings_add(npm::npm_kinds(l), pnpm::pnpm_kinds(l), n, l);
        lemma_line_findings_add(npm::npm_kinds(l) + pnpm::pnpm_kinds(l), yarn::yarn_kinds(l), n, l);
        lemma_line_findings_add(
            npm::npm_kinds(l) + pnpm::pnpm_kinds(l) + yarn::yarn_kinds(l),
            bun::bun_kinds(l, bun_frozen_lockfile),
            n,
            l,
        );
    }
    violations
}

/// A set of line rules.
pub trait Rule {
    fn check(&self, line: &str, line_num: usize, context: &LintContext) -> Vec<Violation>;
}

/// The npm, pnpm, yarn and bun rules.
pub struct JavaScriptRules;

impl Rule for JavaScriptRules {
    fn check(&self, line: &str, line_num: usize, context: &LintContext) -> (r: Vec<Violation>)
        ensures
            findings(r@) == line_findings(
                javascript_kinds(line@, context.bun_frozen_lockfile),
                line_num as int,
                line@,
            ),
    {
        check_line(&RulePatterns::new(), line, line_num, context.bun_frozen_lockfile)
    }
}

/// One violation of each kind, in order, for the line.
pub fn violations_of(kinds: Vec<ViolationKind>, line: &str, line_num: usize) -> (r: Vec<Violation>)
    ensures
        findings(r@) == line_findings(kinds@, line_num as int, line@),
{
    let ghost all = kinds@;
    let mut rest = kinds;
    let mut out: Vec<Violation> = Vec::new();
    let ghost mut done: Seq<ViolationKind> = Seq::empty();
    assert(findings(out@) =~= line_findings(done, line_num as int, line@));
    while rest.len() > 0
        invariant
            all == done + rest@,
            findings(out@) == line_findings(done, line_num as int, line@),
        decreases rest.len(),
    {
        let ghost before = rest@;
        let k = rest.remove(0);
        let ghost kv = k;
        let ghost prev = findings(out@);
        let v = line_violation(k, line, line_num);
        out.push(v);
        proof {
            assert(before =~= seq![kv] + rest@);
            assert(findings(out@) =~= prev.push(v@));
            assert(line_findings(done.push(kv), line_num as int, line@) =~= line_findings(done, line_num as int, line@).push(
                v@,
            ));
            assert(all =~= done.push(kv) + rest@);
            done = done.push(kv);
        }
    }
    assert(done =~= all);
    out
}

/// The trimmed line as a `String`.
pub fn trimmed_line(line: &str) -> (r: String)
    ensures
        r@ == crate::text::trim(line@),
{
    let chars = crate::text::chars_of(line);
    let t = crate::text::trim_chars(chars.as_slice());
    crate::text::string_of(t.as_slice())
}

/// One violation of `kind` for the line.
pub fn line_violation(kind: ViolationKind, line: &str, line_num: usize) -> (r: Violation)
    ensures
        r@ == finding(kind, line_num as int, crate::text::trim(line@)),
{
    Violation::new(kind, line_num, trimmed_line(line))
}

} // verus!
