use codem::path_utils::{components, file_name, starts_with, PathValidator};

#[test]
fn components_follow_std_path_rules() {
    assert_eq!(components("/a//b/./c/"), vec!["/", "a", "b", "c"]);
    assert_eq!(components("./a"), vec![".", "a"]);
    assert_eq!(components("a/.."), vec!["a", ".."]);
    assert_eq!(components("."), vec!["."]);
    assert_eq!(components(""), Vec::<&str>::new());
    assert_eq!(components(".hidden/x"), vec![".hidden", "x"]);
}

#[test]
fn starts_with_compares_whole_components() {
    assert!(starts_with("/a/b/c", "/a/b"));
    assert!(starts_with("/a/b/", "/a/b"));
    assert!(starts_with("/a/b", "/a/b/"));
    assert!(!starts_with("/a/bc", "/a/b"));
    assert!(!starts_with("a/b", "./a"));
    assert!(!starts_with("a/b", "/a"));
    assert!(starts_with("anything", ""));
}

#[test]
fn file_name_is_the_last_named_component() {
    assert_eq!(file_name("a/b.txt"), Some("b.txt"));
    assert_eq!(file_name("a/b/"), Some("b"));
    assert_eq!(file_name("a/b/."), Some("b"));
    assert_eq!(file_name("a/.."), None);
    assert_eq!(file_name("/"), None);
    assert_eq!(file_name("."), None);
    assert_eq!(file_name(""), None);
}

#[test]
fn validator_keeps_its_directories() {
    let v = PathValidator::new(vec!["/home/u/proj".to_string(), "/tmp".to_string()]);
    assert_eq!(v.get_allowed_dirs(), vec!["/home/u/proj".to_string(), "/tmp".to_string()]);
}

#[test]
fn is_under_allowed_checks_component_prefixes() {
    let v = PathValidator::new(vec!["/home/u/proj".to_string()]);
    assert!(v.is_under_allowed("/home/u/proj/src/main.rs"));
    assert!(v.is_under_allowed("/home/u/proj"));
    assert!(!v.is_under_allowed("/home/u/project"));
    assert!(!v.is_under_allowed("/home/u"));
    assert!(!v.is_under_allowed("home/u/proj/x"));
}

#[test]
fn every_allowed_directory_is_under_itself() {
    let dirs = vec!["/a/b".to_string(), "rel/dir/".to_string(), "./x".to_string()];
    let v = PathValidator::new(dirs.clone());
    for d in &dirs {
        assert!(v.is_under_allowed(d));
    }
}

#[test]
fn is_allowed_uses_canonical_forms_for_existing_paths() {
    let v = PathValidator::new(vec!["/link/proj".to_string(), "/gone".to_string()]);
    let canonical_allowed = vec![Some("/real/proj".to_string()), None];
    assert!(v.is_allowed("/link/proj/x", true, &Some("/real/proj/x".to_string()), &canonical_allowed));
    assert!(!v.is_allowed("/link/proj/x", true, &Some("/elsewhere/x".to_string()), &canonical_allowed));
    assert!(!v.is_allowed("/link/proj/x", true, &None, &canonical_allowed));
    assert!(v.is_allowed("/link/proj/new.rs", false, &None, &canonical_allowed));
    assert!(!v.is_allowed("/other/new.rs", false, &None, &canonical_allowed));
}
