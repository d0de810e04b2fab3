use ramag_tools::vcs_common::{
    code_to_letter, is_relevant, lang_for_path, relevant_components, DiffViewMode,
    FileChangeKind, FilesViewMode,
};

#[test]
fn maps_known_extensions() {
    assert_eq!(lang_for_path("src/main.rs"), Some("rust"));
    assert_eq!(lang_for_path("a/b/util.go"), Some("go"));
    assert_eq!(lang_for_path("script.py"), Some("python"));
    assert_eq!(lang_for_path("data.json"), Some("json"));
    assert_eq!(lang_for_path("app.tsx"), Some("typescript"));
    assert_eq!(lang_for_path("mod.mjs"), Some("javascript"));
    assert_eq!(lang_for_path("config.yml"), Some("yaml"));
    assert_eq!(lang_for_path("header.hpp"), Some("cpp"));
    assert_eq!(lang_for_path("Main.java"), Some("java"));
}

#[test]
fn case_insensitive_extension() {
    assert_eq!(lang_for_path("README.MD"), Some("markdown"));
    assert_eq!(lang_for_path("Build.SQL"), Some("sql"));
}

#[test]
fn unknown_or_no_extension_is_none() {
    assert_eq!(lang_for_path("Cargo.lock"), None);
    assert_eq!(lang_for_path(".gitignore"), None);
    assert_eq!(lang_for_path("Makefile"), None);
    assert_eq!(lang_for_path("path/to/dir.with.dots/file"), None);
}

#[test]
fn windows_separators_and_more_languages() {
    assert_eq!(lang_for_path("dir\\x.h"), Some("c"));
    assert_eq!(lang_for_path("a.b/run.SH"), Some("bash"));
    assert_eq!(lang_for_path("x.toml"), Some("toml"));
    assert_eq!(lang_for_path(""), None);
    assert_eq!(lang_for_path("dir/"), None);
}

fn rel(p: &str) -> bool {
    is_relevant("/repo", p)
}

#[test]
fn worktree_files_are_relevant() {
    assert!(rel("/repo/src/main.rs"));
    assert!(rel("/repo/README.md"));
}

#[test]
fn git_state_files_are_relevant() {
    assert!(rel("/repo/.git/index"));
    assert!(rel("/repo/.git/HEAD"));
    assert!(rel("/repo/.git/refs/heads/main"));
    assert!(rel("/repo/.git/MERGE_HEAD"));
}

#[test]
fn git_noise_is_filtered() {
    assert!(!rel("/repo/.git/objects/ab/cdef123"));
    assert!(!rel("/repo/.git/logs/HEAD"));
    assert!(!rel("/repo/.git/COMMIT_EDITMSG"));
    assert!(!rel("/repo/.git/index.lock"));
    assert!(!rel("/repo/.git/config"));
}

#[test]
fn relevance_edges() {
    assert!(rel("/elsewhere/x"));
    assert!(!rel("/repo"));
    assert!(!rel("/repo/.git"));
    assert!(relevant_components(None));
    assert!(!relevant_components(Some(vec![])));
    assert!(relevant_components(Some(vec![".git".into(), "rebase-apply".into()])));
    assert!(relevant_components(Some(vec!["src".into()])));
}

#[test]
fn modes_and_letters() {
    assert_eq!(FilesViewMode::Project.label(), "项目文件");
    assert_eq!(FilesViewMode::Changes.id_str(), "changes");
    assert_eq!(DiffViewMode::Standard.context_lines(), 3);
    assert_eq!(DiffViewMode::FullFile.context_lines(), 999_999);
    assert_eq!(DiffViewMode::Standard.toggled(), DiffViewMode::FullFile);
    assert_eq!(DiffViewMode::Standard.toggled().toggled(), DiffViewMode::Standard);
    assert_eq!(code_to_letter(Some(FileChangeKind::Untracked)), "?");
    assert_eq!(code_to_letter(Some(FileChangeKind::Conflicted)), "U");
    assert_eq!(code_to_letter(None), " ");
}
