use locked_in::bounded_io::{admit_chunk, check_metadata, read_bounded_utf8, BoundedReadError};
use locked_in::context::git::{
    git_metadata_dir, gitdir_target_is_submodule, has_submodule_gitdir_file, parse_gitdir_target_from_content,
    parse_gitmodules_paths_from_content, parse_tracked_paths_from_index, tracked_paths, GitIndexStatus,
    SubmodulePruner,
};
use locked_in::context::js_workspace::{
    declares_member, patterns_from_package_json, patterns_from_pnpm_yaml, workspace_patterns,
};
use locked_in::context::lockfiles::{
    expected_lockfile_paths, expected_lockfiles_for_manifest, javascript_lockfiles, lockfile_expectations, Ecosystem,
};
use locked_in::order::{contains_components, sort_results_by_path, sorted_components};
use locked_in::paths::{components_of, dedup_path_strings, sort_path_strings};
use locked_in::scanner::{
    acceptable_lockfile_paths, cap_files, check_tracked_lockfiles, finish_scan, go_mod_has_module_and_require, lint_source,
    lockfile_check_reads, max_file_size_for, unique_in_order, RepoFile,
};
use locked_in::{FileLintResult, Severity, Violation};

fn strings(list: &[&str]) -> Vec<String> {
    list.iter().map(|s| s.to_string()).collect()
}

fn file(path: &str, content: &str) -> RepoFile {
    RepoFile { path: path.to_string(), content: Some(content.to_string()) }
}

/// A version-2 Git index listing the given paths.
fn index_with(paths: &[&str]) -> Vec<u8> {
    let mut bytes = b"DIRC".to_vec();
    bytes.extend_from_slice(&2u32.to_be_bytes());
    bytes.extend_from_slice(&(paths.len() as u32).to_be_bytes());
    for path in paths {
        let start = bytes.len();
        bytes.extend_from_slice(&[0u8; 62]);
        bytes.extend_from_slice(path.as_bytes());
        bytes.push(0);
        while (bytes.len() - start) % 8 != 0 {
            bytes.push(0);
        }
    }
    bytes
}

#[test]
fn git_submodule_helpers_parse_common_formats() {
    let content = r#"
[submodule "vendor/foo"]
    path = vendor/foo
[submodule "deps/bar"]
    path = "deps/bar"
"#;
    assert_eq!(parse_gitmodules_paths_from_content(content), strings(&["vendor/foo", "deps/bar"]));
    assert_eq!(
        parse_gitdir_target_from_content("gitdir: ../.git/modules/deps/foo\n"),
        Some("../.git/modules/deps/foo".to_string())
    );
    assert!(gitdir_target_is_submodule("../.git/modules/deps/foo"));
    assert!(!gitdir_target_is_submodule("/repo/.git/worktrees/feature"));

    let pruner = SubmodulePruner { root: "/repo".to_string(), gitmodules_paths: strings(&["deps/foo"]) };
    assert!(pruner.is_declared_submodule_path("/repo/deps/foo"));
    assert!(!pruner.is_declared_submodule_path("/repo/deps/foo/src"));
}

// ---------------------------------------------------------------------------
// Git metadata and the index
// ---------------------------------------------------------------------------

#[test]
fn index_paths_are_read_in_order() {
    let index = index_with(&["Cargo.toml", "src/lib.rs", "a/very/long/path/to/package.json"]);
    assert_eq!(
        parse_tracked_paths_from_index(&index),
        Some(strings(&["Cargo.toml", "src/lib.rs", "a/very/long/path/to/package.json"]))
    );
    assert_eq!(tracked_paths(Some(Ok(index))), Ok(strings(&["Cargo.toml", "src/lib.rs", "a/very/long/path/to/package.json"])));
}

#[test]
fn malformed_indexes_are_refused() {
    assert_eq!(parse_tracked_paths_from_index(b"DIRC"), None);
    let mut wrong_magic = index_with(&["a"]);
    wrong_magic[0] = b'X';
    assert_eq!(parse_tracked_paths_from_index(&wrong_magic), None);
    let mut wrong_version = index_with(&["a"]);
    wrong_version[7] = 9;
    assert_eq!(parse_tracked_paths_from_index(&wrong_version), None);
    let mut too_many = index_with(&["a"]);
    too_many[11] = 5;
    assert_eq!(parse_tracked_paths_from_index(&too_many), None);
    assert_eq!(tracked_paths(Some(Ok(wrong_magic))), Err(GitIndexStatus::UnsupportedIndex));
}

#[test]
fn index_read_failures_map_to_statuses() {
    assert_eq!(tracked_paths(None), Err(GitIndexStatus::MissingMetadata));
    assert_eq!(tracked_paths(Some(Err(BoundedReadError::Io("gone".to_string())))), Err(GitIndexStatus::MissingIndex));
    assert_eq!(tracked_paths(Some(Err(BoundedReadError::TooLarge { max: 1 }))), Err(GitIndexStatus::ExceedsLimits));
    assert_eq!(tracked_paths(Some(Err(BoundedReadError::Allocation))), Err(GitIndexStatus::ExceedsLimits));
    assert_eq!(tracked_paths(Some(Err(BoundedReadError::Symlink))), Err(GitIndexStatus::UnsupportedIndex));
}

#[test]
fn git_metadata_dir_follows_gitdir_files() {
    let none = Err(BoundedReadError::Io("missing".to_string()));
    assert_eq!(git_metadata_dir("/repo", true, &none), Some("/repo/.git".to_string()));
    assert_eq!(git_metadata_dir("/repo", false, &none), None);
    let relative = Ok("gitdir: ../.git/modules/sub\n".to_string());
    assert_eq!(git_metadata_dir("/repo/sub", false, &relative), Some("/repo/sub/../.git/modules/sub".to_string()));
    let absolute = Ok("gitdir: /elsewhere/.git\n".to_string());
    assert_eq!(git_metadata_dir("/repo", false, &absolute), Some("/elsewhere/.git".to_string()));
    assert!(has_submodule_gitdir_file(&relative));
    assert!(!has_submodule_gitdir_file(&absolute));
}

#[test]
fn submodule_dirs_are_pruned() {
    let pruner = SubmodulePruner::new("/repo", Ok("[submodule \"x\"]\n\tpath = libs/x\n".to_string()));
    assert_eq!(pruner.gitmodules_paths, strings(&["libs/x"]));
    let no_git = Err(BoundedReadError::Io("missing".to_string()));
    assert!(pruner.is_submodule_dir("/repo/libs/x", &no_git));
    assert!(!pruner.is_submodule_dir("/repo/libs", &no_git));
    let gitdir = Ok("gitdir: ../../.git/modules/y\n".to_string());
    assert!(pruner.is_submodule_dir("/repo/other/y", &gitdir));
    assert!(!pruner.is_submodule_dir("/repo", &gitdir));
}

// ---------------------------------------------------------------------------
// Lockfiles
// ---------------------------------------------------------------------------

#[test]
fn expectations_cover_the_three_ecosystems() {
    let all = lockfile_expectations();
    assert_eq!(all.len(), 3);
    let js = expected_lockfiles_for_manifest("web/package.json").unwrap();
    assert_eq!(js.ecosystem, Ecosystem::JavaScript);
    assert_eq!(js.lockfiles, javascript_lockfiles());
    assert_eq!(expected_lockfiles_for_manifest("go.mod").unwrap().ecosystem, Ecosystem::Go);
    assert!(expected_lockfiles_for_manifest("README.md").is_none());
    assert_eq!(expected_lockfile_paths("crates/a/Cargo.toml"), Some(strings(&["crates/a/Cargo.lock"])));
    assert_eq!(expected_lockfile_paths("go.mod"), Some(strings(&["go.sum"])));
}

#[test]
fn missing_lockfiles_are_warnings() {
    let index = Ok(strings(&["package.json", "README.md"]));
    let results = check_tracked_lockfiles("/repo", &index, &vec![]);
    assert_eq!(results.len(), 1);
    assert_eq!(results[0].path, "/repo/package.json");
    let v = &results[0].violations[0];
    assert_eq!(v.severity, Severity::Warning);
    assert_eq!(v.rule_id.as_deref(), Some("missing-tracked-lockfile"));
    assert_eq!(v.line_num, 0);
    assert_eq!(v.line_content, "package.json");
    assert_eq!(
        v.message,
        "Tracked manifest is missing a tracked lockfile: bun.lock, bun.lockb, npm-shrinkwrap.json, package-lock.json, pnpm-lock.yaml, yarn.lock"
    );
}

#[test]
fn committed_lockfiles_satisfy_their_manifests() {
    let index = Ok(strings(&["package.json", "yarn.lock", "Cargo.toml", "Cargo.lock", "go.mod", "go.sum"]));
    assert!(check_tracked_lockfiles("/repo", &index, &vec![]).is_empty());
}

#[test]
fn unavailable_git_metadata_is_one_warning() {
    let results = check_tracked_lockfiles("/repo", &Err(GitIndexStatus::MissingMetadata), &vec![]);
    assert_eq!(results.len(), 1);
    assert_eq!(results[0].path, "/repo/.git");
    assert_eq!(results[0].violations[0].line_content, ".git/index");
    assert_eq!(results[0].violations[0].message, "Git metadata not found; skipping tracked lockfile validation");
    assert_eq!(results[0].violations[0].severity, Severity::Warning);
}

#[test]
fn go_modules_without_requirements_need_no_sum() {
    let index = Ok(strings(&["go.mod"]));
    let plain = vec![file("go.mod", "module example.com/x\n\ngo 1.22\n")];
    assert!(check_tracked_lockfiles("/r", &index, &plain).is_empty());
    let requiring = vec![file("go.mod", "module example.com/x\nrequire (\n\tgolang.org/x/text v0.3.0\n)\n")];
    assert_eq!(check_tracked_lockfiles("/r", &index, &requiring).len(), 1);
    let unreadable = vec![RepoFile { path: "go.mod".to_string(), content: None }];
    assert_eq!(check_tracked_lockfiles("/r", &index, &unreadable).len(), 1);
    assert!(go_mod_has_module_and_require("  module m\nrequire x v1\n"));
    assert!(!go_mod_has_module_and_require("require x v1\n"));
}

#[test]
fn cargo_workspace_members_use_the_root_lockfile() {
    let index = Ok(strings(&["Cargo.toml", "Cargo.lock", "crates/a/Cargo.toml"]));
    let files = vec![file("Cargo.toml", "[workspace]\nmembers = [\"crates/*\"]\n")];
    assert!(check_tracked_lockfiles("/r", &index, &files).is_empty());
    let not_workspace = vec![file("Cargo.toml", "[package]\nname = \"x\"\n")];
    let results = check_tracked_lockfiles("/r", &index, &not_workspace);
    assert_eq!(results.len(), 1);
    assert_eq!(results[0].path, "/r/crates/a/Cargo.toml");
    assert_eq!(
        results[0].violations[0].message,
        "Tracked manifest is missing a tracked lockfile: crates/a/Cargo.lock"
    );
}

#[test]
fn js_workspace_members_use_the_root_lockfile() {
    let index = Ok(strings(&["package.json", "pnpm-lock.yaml", "packages/ui/package.json", "tools/x/package.json"]));
    let files = vec![file("package.json", "{\"workspaces\": [\"packages/*\"]}")];
    let results = check_tracked_lockfiles("/r", &index, &files);
    assert_eq!(results.len(), 1);
    assert_eq!(results[0].path, "/r/tools/x/package.json");
    let pnpm = vec![file("package.json", "{}"), file("pnpm-workspace.yaml", "packages:\n  - 'tools/*'\n")];
    let results = check_tracked_lockfiles("/r", &index, &pnpm);
    assert_eq!(results.len(), 1);
    assert_eq!(results[0].path, "/r/packages/ui/package.json");
}

#[test]
fn acceptable_lockfiles_include_workspace_roots_sorted() {
    let files = vec![file("Cargo.toml", "[workspace]\n")];
    let paths = acceptable_lockfile_paths("b/Cargo.toml", strings(&["b/Cargo.lock"]), &files);
    assert_eq!(paths, strings(&["Cargo.lock", "b/Cargo.lock"]));
}

#[test]
fn check_reads_name_the_workspace_files() {
    let reads = lockfile_check_reads(&strings(&["go.mod", "a/b/Cargo.toml", "web/package.json", "README.md"]));
    assert_eq!(
        reads,
        strings(&[
            "go.mod",
            "a/b/Cargo.toml",
            "a/Cargo.toml",
            "Cargo.toml",
            "web/package.json",
            "web/pnpm-workspace.yaml",
            "package.json",
            "pnpm-workspace.yaml",
        ])
    );
}

#[test]
fn workspace_patterns_come_from_both_files() {
    assert_eq!(patterns_from_package_json("{\"workspaces\": {\"packages\": [\"apps/*\", 3]}}"), strings(&["apps/*"]));
    assert_eq!(patterns_from_package_json("{\"workspaces\": [\"a\", \"b/**\"]}"), strings(&["a", "b/**"]));
    assert!(patterns_from_package_json("[1, 2]").is_empty());
    assert_eq!(patterns_from_pnpm_yaml("packages:\n  - \"libs/*\"\n  - apps/web\nother:\n  - x\n"), strings(&["libs/*", "apps/web"]));
    let both = workspace_patterns(&Ok("{\"workspaces\": [\"a/*\"]}".to_string()), &Ok("packages:\n  - b\n".to_string()));
    assert_eq!(both, strings(&["a/*", "b"]));
    assert!(declares_member(&strings(&["packages/*"]), "packages/ui"));
    assert!(!declares_member(&strings(&["packages/*"]), "packages/ui/deep"));
    assert!(declares_member(&strings(&["packages/**"]), "packages/ui/deep"));
    assert!(declares_member(&strings(&["apps/web/"]), "apps/web"));
    assert!(!declares_member(&strings(&["./apps/web"]), "apps/web"));
    assert!(!declares_member(&strings(&["!packages/*"]), "packages/ui"));
}

// ---------------------------------------------------------------------------
// Reading, linting and the scan's result
// ---------------------------------------------------------------------------

#[test]
fn bounded_reads_check_size_links_and_text() {
    assert!(check_metadata(false, true, 10, 10).is_ok());
    assert!(matches!(check_metadata(true, true, 1, 10), Err(BoundedReadError::Symlink)));
    assert!(check_metadata(true, false, 1, 10).is_ok());
    assert!(matches!(check_metadata(false, true, 11, 10), Err(BoundedReadError::TooLarge { max: 10 })));
    assert_eq!(admit_chunk(4, 6, 10).ok(), Some(10));
    assert!(admit_chunk(5, 6, 10).is_err());
    assert_eq!(read_bounded_utf8(Ok("héllo".as_bytes().to_vec())).ok(), Some("héllo".to_string()));
    assert!(matches!(read_bounded_utf8(Ok(vec![0xff, 0xfe])), Err(BoundedReadError::InvalidUtf8)));
    assert_eq!(BoundedReadError::TooLarge { max: 2097152 }.describe(), "exceeds the 2097152-byte size limit");
    assert_eq!(max_file_size_for("a/package.json"), 2097152);
    assert_eq!(max_file_size_for("Dockerfile"), 16777216);
}

#[test]
fn unreadable_inputs_are_reported_as_errors() {
    let r = lint_source("docs/a.md", &Err(BoundedReadError::Symlink), false).unwrap();
    assert_eq!(r.violations.len(), 1);
    assert_eq!(r.violations[0].message, "Input file is a symbolic link; refusing to skip security checks");
    assert_eq!(r.violations[0].rule_id.as_deref(), Some("scan-input-unavailable"));
    assert_eq!(r.violations[0].severity, Severity::Error);
    assert!(lint_source("src/main.rs", &Ok("npm install".to_string()), false).is_none());
}

#[test]
fn sources_are_linted_by_kind() {
    let docker = lint_source("Dockerfile", &Ok("FROM node:20\nRUN npm install\n".to_string()), false).unwrap();
    assert_eq!(docker.path, "Dockerfile");
    assert_eq!(docker.violations.len(), 1);
    assert_eq!(docker.violations[0].line_num, 2);
    let pkg = lint_source("package.json", &Ok("{\"scripts\": {\"i\": \"bun install\"}}".to_string()), true).unwrap();
    assert!(pkg.violations.is_empty());
    let pkg = lint_source("package.json", &Ok("{\"scripts\": {\"i\": \"bun install\"}}".to_string()), false).unwrap();
    assert_eq!(pkg.violations.len(), 1);
}

#[test]
fn scan_results_are_sorted_and_counted() {
    let linted = vec![
        FileLintResult { path: "b/x.sh".to_string(), violations: vec![Violation::error(1, "m", "c", "r")] },
        FileLintResult { path: "a.sh".to_string(), violations: vec![] },
        FileLintResult { path: "b".to_string(), violations: vec![Violation::error(2, "m", "c", "r")] },
    ];
    let lockfile = vec![FileLintResult {
        path: "a/package.json".to_string(),
        violations: vec![Violation::warning("w", "a/package.json", "missing-tracked-lockfile")],
    }];
    let result = finish_scan("/root", linted, true, lockfile);
    let order: Vec<&str> = result.results.iter().map(|r| r.path.as_str()).collect();
    assert_eq!(order, ["/root", "a/package.json", "a.sh", "b", "b/x.sh"]);
    assert_eq!(result.violations_found, 3);
    assert_eq!(result.warnings_found, 1);
    assert_eq!(result.files_checked, 5);
    assert_eq!(result.results[0].violations[0].message, "Repository exceeds the 100000-file scan limit");
    assert_eq!(result.results[0].violations[0].rule_id.as_deref(), Some("scan-file-limit"));
}

#[test]
fn equal_paths_keep_their_order() {
    let results = vec![
        FileLintResult { path: "z".to_string(), violations: vec![] },
        FileLintResult { path: "./a".to_string(), violations: vec![Violation::error(1, "first", "", "r")] },
        FileLintResult { path: "a".to_string(), violations: vec![Violation::error(1, "plain", "", "r")] },
        FileLintResult { path: "./a/".to_string(), violations: vec![Violation::error(1, "second", "", "r")] },
    ];
    let sorted = sort_results_by_path(&results);
    let order: Vec<&str> = sorted.iter().map(|r| r.path.as_str()).collect();
    assert_eq!(order, ["./a", "./a/", "a", "z"]);
    assert_eq!(sorted[0].violations[0].message, "first");
}

#[test]
fn paths_sort_by_components() {
    let sorted = sort_path_strings(&strings(&["b", "a/b", "a", "a-b", "a//b", "/x"]));
    assert_eq!(sorted, strings(&["/x", "a", "a/b", "a//b", "a-b", "b"]));
    assert_eq!(dedup_path_strings(&sorted), strings(&["/x", "a", "a/b", "a-b", "b"]));
}

#[test]
fn glob_wildcards_follow_their_rules() {
    assert!(declares_member(&strings(&["packages/?"]), "packages/a"));
    assert!(!declares_member(&strings(&["packages/?"]), "packages/ab"));
    assert!(declares_member(&strings(&["**"]), "any/depth/at/all"));
    assert!(declares_member(&strings(&["pkg-*"]), "pkg-one"));
    assert!(!declares_member(&strings(&["pkg-*"]), "pkg-one/sub"));
    assert!(declares_member(&strings(&["apps/web"]), "apps/web"));
    assert!(!declares_member(&strings(&["apps/web"]), "apps/webs"));
    assert!(!declares_member(&strings(&["packages/*", "!packages/private"]), "packages/private"));
    assert!(declares_member(&strings(&["packages/*", "!packages/private"]), "packages/public"));
}

#[test]
fn sorted_components_find_paths_by_components() {
    let sorted = sorted_components(&strings(&["b/c", "a", "./x/", "a"]));
    assert_eq!(sorted.len(), 4);
    let key = |p: &str| components_of(&p.chars().collect::<Vec<char>>());
    assert!(contains_components(&sorted, &key("a")));
    assert!(contains_components(&sorted, &key("b//c/")));
    assert!(contains_components(&sorted, &key("./x")));
    assert!(!contains_components(&sorted, &key("x")));
    assert!(!contains_components(&sorted, &key("b")));
    assert!(!contains_components(&sorted_components(&vec![]), &key("a")));
}

#[test]
fn the_file_cap_keeps_the_first_files() {
    let few: Vec<u32> = (0..10).collect();
    assert_eq!(cap_files(few.clone()), (few, false));
    let many: Vec<u32> = (0..100_001).collect();
    let (kept, exceeded) = cap_files(many);
    assert!(exceeded);
    assert_eq!(kept.len(), 100_000);
    assert_eq!(kept[99_999], 99_999);
    let exact: Vec<u32> = (0..100_000).collect();
    assert!(!cap_files(exact).1);
}

#[test]
fn pnpm_patterns_come_from_the_packages_block_only() {
    let yaml = "- stray\npackages:\n  # the apps\n  - 'apps/*'\n\n- libs/*\n  nested: true\n  - tools\nname: demo\n  - late\npackages:\n  - again\n";
    assert_eq!(patterns_from_pnpm_yaml(yaml), strings(&["apps/*", "libs/*", "tools", "again"]));
    assert!(patterns_from_pnpm_yaml("  packages:\n  - a\n").is_empty());
}

#[test]
fn each_file_is_read_once_in_first_order() {
    let reads = strings(&["a/package.json", "package.json", "a/package.json", "b/Cargo.toml", "package.json"]);
    assert_eq!(unique_in_order(reads), strings(&["a/package.json", "package.json", "b/Cargo.toml"]));
    assert!(unique_in_order(Vec::new()).is_empty());
    let index = strings(&["apps/web/package.json", "apps/api/package.json"]);
    let reads = unique_in_order(lockfile_check_reads(&index));
    let mut sorted = reads.clone();
    sorted.sort();
    sorted.dedup();
    assert_eq!(sorted.len(), reads.len());
}
