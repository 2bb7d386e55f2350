use vstd::prelude::*;

use super::npm::VERSION_PIN;
use super::pnpm::FROZEN_LOCKFILE_FLAG;
use super::{line_findings, violations_of, RulePatterns};
use crate::diagnostic::{findings, Violation, ViolationKind};
use crate::pattern::{is_match, regex_is_match};
use crate::text::{contains, contains_str};

verus! {

pub const BUN_INSTALL: &'static str = r"\bbun\s+install\b";

pub const BUN_ADD: &'static str = r"\bbun\s+add\s";

/// What the bun rule reports, from what its patterns match on the line:
/// `bun-frozen-lockfile` for an install without `--frozen-lockfile` when the repository
/// configuration does not freeze the lockfile, then `bun-version-pin` for an add without
/// a version pin.
pub open spec fn bun_kinds_of(install: bool, frozen_flag: bool, bun_frozen_lockfile: bool, add: bool, pin: bool) -> Seq<ViolationKind> {
    (if install && !frozen_flag && !bun_frozen_lockfile {
        seq![ViolationKind::BunFrozenLockfile]
    } else {
        seq![]
    }) + (if add && !pin {
        seq![ViolationKind::BunVersionPin]
    } else {
        seq![]
    })
}

/// What the bun rule reports for a line.
pub open spec fn bun_kinds(line: Seq<char>, bun_frozen_lockfile: bool) -> Seq<ViolationKind> {
    bun_kinds_of(
        regex_is_match(BUN_INSTALL@, line),
        contains(line, FROZEN_LOCKFILE_FLAG@),
        bun_frozen_lockfile,
        regex_is_match(BUN_ADD@, line),
        regex_is_match(VERSION_PIN@, line),
    )
}

/// The bun rule's decision from what its patterns matched.
pub fn bun_kinds_from(install: bool, frozen_flag: bool, bun_frozen_lockfile: bool, add: bool, pin: bool) -> (r: Vec<ViolationKind>)
    ensures
        r@ == bun_kinds_of(install, frozen_flag, bun_frozen_lockfile, add, pin),
{
    let mut r: Vec<ViolationKind> = Vec::new();
    if install && !frozen_flag && !bun_frozen_lockfile {
        r.push(ViolationKind::BunFrozenLockfile);
    }
    if add && !pin {
        r.push(ViolationKind::BunVersionPin);
    }
    assert(r@ =~= bun_kinds_of(install, frozen_flag, bun_frozen_lockfile, add, pin));
    r
}

pub fn check_bun(line: &str, line_num: usize, bun_frozen_lockfile: bool) -> (r: Vec<Violation>)
    ensures
        findings(r@) == line_findings(bun_kinds(line@, bun_frozen_lockfile), line_num as int, line@),
{
    check_bun_with(&RulePatterns::new(), line, line_num, bun_frozen_lockfile)
}

/// `check_bun` with the rules' patterns compiled beforehand.
pub fn check_bun_with(patterns: &RulePatterns, line: &str, line_num: usize, bun_frozen_lockfile: bool) -> (r: Vec<Violation>)
    requires
        patterns.ready(),
    ensures
        findings(r@) == line_findings(bun_kinds(line@, bun_frozen_lockfile), line_num as int, line@),
{
    let chars = crate::text::chars_of(line);
    let install = is_match(&patterns.bun_install, line);
    let frozen_flag = contains_str(chars.as_slice(), FROZEN_LOCKFILE_FLAG);
    let add = is_match(&patterns.bun_add, line);
    let pin = is_match(&patterns.version_pin, line);
    violations_of(bun_kinds_from(install, frozen_flag, bun_frozen_lockfile, add, pin), line, line_num)
}

} // verus!
