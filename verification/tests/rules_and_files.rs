use locked_in::context::bun::{
    bunfig_has_frozen_lockfile, bunfig_search_dirs_exec, BunfigAction, BunfigEvent, BunfigSearch,
};
use locked_in::file_types::{comment_style_for_file, is_excluded, is_package_json, should_check_file};
use locked_in::ignore_directives::{
    directive_from_capture, is_ignore_directive, split_inline_ignore, CommentStyle, IgnoreDirective,
};
use locked_in::parsers::line::{check_file, is_comment_or_placeholder, should_lint_markdown_code_block};
use locked_in::rules::bun::bun_kinds_from;
use locked_in::rules::npm::npm_kinds_from;
use locked_in::rules::pnpm::pnpm_kinds_from;
use locked_in::rules::yarn::yarn_kinds_from;
use locked_in::rules::{check_bun, check_npm, check_pnpm, check_yarn};
use locked_in::ViolationKind;
use locked_in::scanner::LintContext;

fn context(is_markdown: bool, is_package_json: bool, bun_frozen_lockfile: bool) -> LintContext {
    LintContext { bun_frozen_lockfile, is_markdown, is_package_json }
}

fn shell_style() -> CommentStyle {
    CommentStyle { prefix: "#", suffix: "" }
}

fn rule_ids(violations: &[locked_in::Violation]) -> Vec<String> {
    violations.iter().map(|v| v.rule_id().to_string()).collect()
}

#[test]
fn npm_ci_allowed() {
    assert!(check_npm("npm ci", 1).is_empty());
}

#[test]
fn npm_install_bare_violation() {
    let violations = check_npm("npm install", 1);
    assert_eq!(violations.len(), 1);
    assert_eq!(violations[0].rule_id.as_deref(), Some("npm-install-bare"));
}

#[test]
fn npm_install_global_yarn_is_still_npm() {
    let violations = check_npm("npm install -g yarn", 1);
    assert_eq!(violations.len(), 1);
    assert_eq!(violations[0].rule_id.as_deref(), Some("npm-version-pin"));
    assert!(violations[0].message.contains("npm"));
}

#[test]
fn npm_install_with_version_allowed() {
    assert!(check_npm("npm i eslint@8.50.0", 1).is_empty());
    assert!(check_npm("npm i @types/node@18.0.0", 1).is_empty());
}

#[test]
fn package_managers_require_lockfile_or_pin() {
    assert_eq!(check_pnpm("pnpm install", 1).len(), 1);
    assert!(check_pnpm("pnpm install --frozen-lockfile", 1).is_empty());
    assert_eq!(check_yarn("yarn install", 1).len(), 1);
    assert!(check_yarn("yarn install --immutable", 1).is_empty());
    assert_eq!(check_bun("bun install", 1, false).len(), 1);
    assert!(check_bun("bun install", 1, true).is_empty());
}

#[test]
fn add_commands_require_version_pins() {
    assert_eq!(check_pnpm("pnpm add @types/react", 1).len(), 1);
    assert!(check_pnpm("pnpm add @types/react@18.0.0", 1).is_empty());
    assert_eq!(check_yarn("yarn add react", 1).len(), 1);
    assert!(check_yarn("yarn add react@18.2.0", 1).is_empty());
    assert_eq!(check_bun("bun add react", 1, false).len(), 1);
    assert!(check_bun("bun add react@18.2.0", 1, false).is_empty());
}

#[test]
fn file_type_detection_matches_supported_inputs() {
    for file_name in ["install.sh", "install.bash", "install.zsh", "install.fish"] {
        assert!(should_check_file(file_name));
    }
    for file_name in ["Makefile", "makefile", "GNUmakefile", "rules.mk"] {
        assert!(should_check_file(file_name));
    }
    assert!(should_check_file(".github/workflows/ci.yml"));
    assert!(should_check_file("package.json"));
    assert!(is_package_json("/repo/package.json"));
    assert!(!is_excluded(".github/workflows/ci.yml"));
}

#[test]
fn comment_styles_are_extension_aware() {
    let sh_style = comment_style_for_file("script.sh").unwrap();
    assert_eq!(sh_style.prefix, "#");
    assert_eq!(sh_style.suffix, "");

    let md_style = comment_style_for_file("README.md").unwrap();
    assert_eq!(md_style.prefix, "<!--");
    assert_eq!(md_style.suffix, "-->");
}

#[test]
fn ignore_directives_support_inline_and_previous_line() {
    let style = shell_style();
    assert!(matches!(is_ignore_directive("# locked-in: ignore", &style), Some(IgnoreDirective::All)));
    assert!(
        matches!(is_ignore_directive("# locked-in: ignore[yarn-frozen-lockfile]", &style), Some(IgnoreDirective::Specific(ref s)) if s == "yarn-frozen-lockfile")
    );
    assert!(split_inline_ignore("bun install  # locked-in: ignore", &style).is_some());
    assert!(split_inline_ignore("# locked-in: ignore", &style).is_none());
}

#[test]
fn ignore_directives_filter_specific_rules() {
    let content = "# locked-in: ignore[bun-frozen-lockfile]\nbun install\nbun add react\n";
    let violations = check_file(content, &context(false, false, false), &shell_style());
    assert_eq!(violations.len(), 1);
    assert_eq!(violations[0].rule_id.as_deref(), Some("bun-version-pin"));
}

#[test]
fn markdown_lints_only_shell_code_blocks() {
    let content = r#"
```bash
bun install
```

```
bun install
```
"#;
    let style = CommentStyle { prefix: "<!--", suffix: "-->" };
    let violations = check_file(content, &context(true, false, false), &style);
    assert_eq!(violations.len(), 1);
    assert!(should_lint_markdown_code_block("```bash"));
    assert!(!should_lint_markdown_code_block("```text"));
}

#[test]
fn comments_and_placeholders_are_skipped() {
    assert!(is_comment_or_placeholder("# npm install"));
    assert!(is_comment_or_placeholder("npm install <package>"));
    assert!(is_comment_or_placeholder("- `bun install`"));
}

#[test]
fn package_json_scripts_are_linted() {
    let content = r#"{
  "name": "demo",
  "description": "Run npm install to set up",
  "scripts": {
    "setup": "npm install",
    "ci": "npm ci"
  }
}"#;
    let violations = check_file(content, &context(false, true, false), &shell_style());
    assert_eq!(violations.len(), 1);
    assert_eq!(violations[0].line_num, 5);
}

#[test]
fn bunfig_policy_is_parsed() {
    assert!(bunfig_has_frozen_lockfile("[install]\nfrozenLockfile = true"));
    assert!(!bunfig_has_frozen_lockfile("[test]\nfrozenLockfile = true"));
    assert!(!bunfig_has_frozen_lockfile("[install]\nfrozenLockfile = false"));
}

#[test]
fn bunfig_lookup_stays_within_root() {
    let dirs = bunfig_search_dirs_exec("/tmp/project", "/tmp/project/docs/README.md");
    assert!(!dirs.iter().any(|d| d == "/tmp"));
    assert!(!dirs.iter().any(|d| d == "/"));
    assert_eq!(dirs.last().map(String::as_str), Some("/tmp/project"));

    // A cached setting for /tmp/bunfig.toml, outside the root, is never consulted.
    let cache = std::collections::HashMap::from([("/tmp/bunfig.toml".to_string(), true)]);
    let (mut search, mut action) = BunfigSearch::start("/tmp/project", "/tmp/project/docs/README.md");
    let mut looked = Vec::new();
    let enabled = loop {
        action = match action {
            BunfigAction::Done(enabled) => break enabled,
            BunfigAction::Look(dir) => {
                let bunfig = format!("{dir}/bunfig.toml");
                looked.push(dir);
                match cache.get(&bunfig) {
                    Some(setting) => search.step(BunfigEvent::Present(Some(*setting))),
                    None => search.step(BunfigEvent::Absent),
                }
            }
            BunfigAction::Read => panic!("nothing to read"),
        };
    };
    assert!(!enabled);
    assert_eq!(looked, dirs);
}

// ---------------------------------------------------------------------------
// Further cases
// ---------------------------------------------------------------------------

#[test]
fn yarn_frozen_lockfile_flag_is_accepted() {
    assert!(check_yarn("yarn install --frozen-lockfile", 1).is_empty());
    assert_eq!(rule_ids(&check_yarn("yarn install", 7)), vec!["yarn-frozen-lockfile"]);
    assert_eq!(check_yarn("yarn install", 7)[0].line_num, 7);
}

#[test]
fn violations_name_the_trimmed_line() {
    let violations = check_npm("   npm install   ", 3);
    assert_eq!(violations.len(), 1);
    assert_eq!(violations[0].line_content, "npm install");
    assert_eq!(violations[0].line_num, 3);
    assert_eq!(
        violations[0].message,
        "Use 'npm ci' instead of 'npm install' for lockfile-based installations"
    );
}

#[test]
fn bun_frozen_flag_is_accepted() {
    assert!(check_bun("bun install --frozen-lockfile", 1, false).is_empty());
    assert_eq!(rule_ids(&check_bun("bun add react", 1, true)), vec!["bun-version-pin"]);
}

#[test]
fn ignore_on_previous_line_suppresses_only_the_next_line() {
    let content = "# locked-in: ignore\nnpm install\nnpm install\n";
    let violations = check_file(content, &context(false, false, false), &shell_style());
    assert_eq!(violations.len(), 1);
    assert_eq!(violations[0].line_num, 3);
}

#[test]
fn inline_ignore_suppresses_its_line() {
    let content = "npm install  # locked-in: ignore\nyarn install\n";
    let violations = check_file(content, &context(false, false, false), &shell_style());
    assert_eq!(violations.len(), 1);
    assert_eq!(violations[0].line_num, 2);
    assert_eq!(violations[0].rule_id.as_deref(), Some("yarn-frozen-lockfile"));
}

#[test]
fn inline_ignore_of_one_rule_keeps_the_others() {
    let content = "npm i eslint  # locked-in: ignore[npm-version-pin]\nnpm i eslint  # locked-in: ignore[yarn-version-pin]\n";
    let violations = check_file(content, &context(false, false, false), &shell_style());
    assert_eq!(violations.len(), 1);
    assert_eq!(violations[0].line_num, 2);
    assert_eq!(violations[0].rule_id.as_deref(), Some("npm-version-pin"));
}

#[test]
fn markdown_ignore_uses_html_comments() {
    let content = "```sh\n<!-- locked-in: ignore -->\nnpm install\nyarn install\n```\n";
    let style = CommentStyle { prefix: "<!--", suffix: "-->" };
    let violations = check_file(content, &context(true, false, false), &style);
    assert_eq!(violations.len(), 1);
    assert_eq!(violations[0].line_num, 4);
}

#[test]
fn findings_per_file_stop_at_the_limit() {
    let content = "npm install\n".repeat(1500);
    let violations = check_file(&content, &context(false, false, false), &shell_style());
    assert_eq!(violations.len(), 1001);
    assert_eq!(violations[0].rule_id.as_deref(), Some("scan-violation-limit"));
    assert_eq!(violations[0].line_num, 0);
    assert_eq!(violations[1000].line_num, 1000);
    assert!(violations.windows(2).all(|w| w[0].line_num <= w[1].line_num));
    assert!(violations.iter().all(|v| v.severity == locked_in::Severity::Error));
}

#[test]
fn package_json_without_scripts_or_invalid_reports_nothing() {
    let ctx = context(false, true, false);
    assert!(check_file("{\"name\": \"x\"}", &ctx, &shell_style()).is_empty());
    assert!(check_file("not json at all", &ctx, &shell_style()).is_empty());
}

#[test]
fn package_json_findings_are_ordered_by_line() {
    let content = "{\n  \"scripts\": {\n    \"b\": \"yarn install\",\n    \"a\": \"npm install\"\n  }\n}";
    let violations = check_file(content, &context(false, true, false), &shell_style());
    assert_eq!(violations.len(), 2);
    assert_eq!(violations[0].line_num, 3);
    assert_eq!(violations[1].line_num, 4);
}

#[test]
fn file_kinds_and_exclusions() {
    assert!(should_check_file("Dockerfile.prod"));
    assert!(should_check_file("app.dockerfile"));
    assert!(should_check_file("docs/GUIDE.MD"));
    assert!(!should_check_file("workflows/ci.yml"));
    assert!(!should_check_file("src/main.rs"));
    assert!(is_excluded("node_modules/x/install.sh"));
    assert!(is_excluded("scripts/lint-package-install.sh"));
    assert!(!is_package_json("package.json.bak"));
    assert!(comment_style_for_file("package.json").is_none());
    assert_eq!(comment_style_for_file("Makefile").unwrap().prefix, "#");
    assert_eq!(comment_style_for_file("Dockerfile").unwrap().prefix, "#");
}

#[test]
fn bunfig_comments_and_sections() {
    assert!(bunfig_has_frozen_lockfile("[install] # settings\nfrozenLockfile = true # always"));
    assert!(!bunfig_has_frozen_lockfile("frozenLockfile = true"));
    assert!(!bunfig_has_frozen_lockfile("[install]\n[run]\nfrozenLockfile = true"));
}

#[test]
fn bunfig_search_goes_from_nearest_to_root() {
    let dirs = bunfig_search_dirs_exec("/repo", "/repo/a/b/file.md");
    assert_eq!(dirs, vec!["/repo/a/b/file.md", "/repo/a/b", "/repo/a", "/repo"]);
    assert!(bunfig_search_dirs_exec("/other", "/repo/a.md").is_empty());
}

#[test]
fn compiled_patterns_check_whole_lines() {
    let patterns = locked_in::rules::RulePatterns::new();
    let found = locked_in::rules::check_line(&patterns, "npm install && yarn add react && bun install", 4, false);
    assert_eq!(rule_ids(&found), vec!["npm-install-bare", "yarn-version-pin", "bun-frozen-lockfile"]);
    assert!(found.iter().all(|v| v.line_num == 4));
    assert!(locked_in::rules::check_line(&patterns, "echo hello", 1, false).is_empty());
    assert_eq!(rule_ids(&locked_in::rules::npm::check_npm_with(&patterns, "npm i lodash", 2)), vec!["npm-version-pin"]);
}

#[test]
fn npm_ci_does_not_excuse_an_install_on_the_same_line() {
    assert_eq!(rule_ids(&check_npm("npm ci && npm install", 1)), vec!["npm-install-bare"]);
    assert_eq!(rule_ids(&check_npm("npm ci; npm i lodash", 1)), vec!["npm-version-pin"]);
    assert!(check_npm("npm ci --ignore-scripts", 1).is_empty());
}

#[test]
fn workflows_are_yaml_files_directly_in_github_workflows() {
    assert!(should_check_file("repo/.github/workflows/ci.yaml"));
    assert!(should_check_file("./.github/workflows/release.YML"));
    assert!(!should_check_file(".github/workflows-old/x.yml"));
    assert!(!should_check_file(".github/workflows/sub/x.yml"));
    assert!(!should_check_file("docs/.github/workflowsx/x.yml"));
}

#[test]
fn rule_decisions_from_matches() {
    let ids = |k: Vec<ViolationKind>| k.iter().map(|k| k.rule_id().to_string()).collect::<Vec<_>>();
    assert_eq!(ids(npm_kinds_from(true, false, true)), vec!["npm-install-bare"]);
    assert_eq!(ids(npm_kinds_from(true, false, false)), vec!["npm-version-pin"]);
    assert!(npm_kinds_from(true, true, true).is_empty());
    assert!(npm_kinds_from(false, false, true).is_empty());
    assert_eq!(ids(pnpm_kinds_from(true, false, true, false)), vec!["pnpm-frozen-lockfile", "pnpm-version-pin"]);
    assert!(pnpm_kinds_from(true, true, true, true).is_empty());
    assert_eq!(ids(yarn_kinds_from(true, false, false, false)), vec!["yarn-frozen-lockfile"]);
    assert_eq!(ids(yarn_kinds_from(false, false, true, false)), vec!["yarn-version-pin"]);
    assert!(bun_kinds_from(true, false, true, false, false).is_empty());
    assert_eq!(ids(bun_kinds_from(true, false, false, true, false)), vec!["bun-frozen-lockfile", "bun-version-pin"]);
    assert!(bun_kinds_from(true, true, false, true, true).is_empty());
}

#[test]
fn directive_from_captured_rule() {
    assert!(matches!(directive_from_capture(None), IgnoreDirective::All));
    assert!(matches!(directive_from_capture(Some("  ".to_string())), IgnoreDirective::All));
    assert!(matches!(directive_from_capture(Some(" npm-version-pin ".to_string())), IgnoreDirective::Specific(ref r) if r == "npm-version-pin"));
}

#[test]
fn rule_directive_drops_only_that_rule_on_the_next_line() {
    let content = "# locked-in: ignore[pnpm-version-pin]\npnpm install && pnpm add react\npnpm add vue\n";
    let violations = check_file(content, &context(false, false, false), &shell_style());
    let found: Vec<(usize, String)> = violations.iter().map(|v| (v.line_num, v.rule_id().to_string())).collect();
    assert_eq!(
        found,
        vec![(2, "pnpm-frozen-lockfile".to_string()), (3, "pnpm-version-pin".to_string())]
    );
}

#[test]
fn first_frozen_lockfile_setting_in_install_decides() {
    assert!(bunfig_has_frozen_lockfile("[install]\nfrozenLockfile = true\nfrozenLockfile = false\n"));
    assert!(!bunfig_has_frozen_lockfile("[install]\nfrozenLockfile = false\n[install]\nfrozenLockfile = true\n"));
    assert!(bunfig_has_frozen_lockfile("[test]\nfrozenLockfile = false\n[install]\n# note\nfrozenLockfile = true # pinned\n"));
    assert!(!bunfig_has_frozen_lockfile("frozenLockfile = true\n[install]\n"));
}

#[test]
fn each_line_reports_under_the_directives_in_force() {
    let content = "# locked-in: ignore\nnpm install\n# npm install in a comment\nyarn add react # locked-in: ignore[yarn-version-pin]\npnpm install\n# locked-in: ignore[npm-install-bare]\n# locked-in: ignore\nnpm install\n";
    let violations = check_file(content, &context(false, false, false), &shell_style());
    let found: Vec<(usize, String)> = violations.iter().map(|v| (v.line_num, v.rule_id().to_string())).collect();
    assert_eq!(found, vec![(5, "pnpm-frozen-lockfile".to_string())]);
}

#[test]
fn the_nearest_bunfig_decides() {
    let (mut search, action) = BunfigSearch::start("/repo", "/repo/app/Dockerfile");
    assert!(matches!(action, BunfigAction::Look(ref d) if d == "/repo/app/Dockerfile"));
    assert!(matches!(search.step(BunfigEvent::Absent), BunfigAction::Look(ref d) if d == "/repo/app"));
    assert!(matches!(search.step(BunfigEvent::Present(None)), BunfigAction::Read));
    let content = Some("[install]\nfrozenLockfile = true\n".to_string());
    assert!(matches!(search.step(BunfigEvent::Read(content)), BunfigAction::Done(true)));

    let (mut search, _) = BunfigSearch::start("/repo", "/repo/app/Dockerfile");
    assert!(matches!(search.step(BunfigEvent::Present(Some(false))), BunfigAction::Done(false)));
    assert!(matches!(search.step(BunfigEvent::Read(None)), BunfigAction::Done(false)));

    let (mut search, _) = BunfigSearch::start("/repo", "/repo/Dockerfile");
    assert!(matches!(search.step(BunfigEvent::Absent), BunfigAction::Look(ref d) if d == "/repo"));
    assert!(matches!(search.step(BunfigEvent::Absent), BunfigAction::Done(false)));

    let (_, action) = BunfigSearch::start("/other", "/repo/Dockerfile");
    assert!(matches!(action, BunfigAction::Done(false)));
}
