use codem::fs_ops::is_in_git_dir;
use std::path::PathBuf;

#[test]
fn test_is_in_git_dir() {
    assert!(is_in_git_dir(PathBuf::from(".git/objects").to_str().unwrap()));
    assert!(is_in_git_dir(PathBuf::from("foo/.git/HEAD").to_str().unwrap()));
    assert!(is_in_git_dir(PathBuf::from("foo/bar/.git").to_str().unwrap()));
    assert!(!is_in_git_dir(PathBuf::from("foo/bar").to_str().unwrap()));
    assert!(!is_in_git_dir(PathBuf::from(".gitignore").to_str().unwrap()));
}

#[test]
fn git_dir_found_through_normalised_components() {
    assert!(is_in_git_dir("./.git"));
    assert!(is_in_git_dir("/repo/.git/config"));
    assert!(is_in_git_dir("repo//.git/"));
    assert!(is_in_git_dir("repo/./.git"));
}

#[test]
fn names_that_only_resemble_git_are_not_git_dirs() {
    assert!(!is_in_git_dir("a/.github/workflows"));
    assert!(!is_in_git_dir("a/x.git"));
    assert!(!is_in_git_dir("."));
    assert!(!is_in_git_dir(""));
    assert!(!is_in_git_dir("/"));
}
