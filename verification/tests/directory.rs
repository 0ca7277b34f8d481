use codem::directory::{
    directory_node, directory_step, entry_route, file_node, file_stats, file_step, list_pattern, name_matches,
    root_node, DirectoryStep, EntryRoute, FileStep,
};
use codem::error::DirectoryError;
use codem::types::{FileMetadata, ListOptions};
use std::time::SystemTime;

fn options(recursive: bool, include_size: bool, include_modified: bool, count_lines: bool) -> ListOptions {
    ListOptions {
        recursive,
        include_size,
        include_modified,
        include_type: true,
        count_lines,
        file_pattern: None,
    }
}

#[test]
fn git_entries_are_left_out() {
    let o = options(true, false, false, false);
    assert_eq!(directory_step(".git", true, &o), DirectoryStep::Skip);
    assert_eq!(directory_step("a/.git/objects", true, &o), DirectoryStep::Skip);
    assert_eq!(file_step("a/.git/config", &o), FileStep::Skip);
}

#[test]
fn directories_are_listed_when_matching_or_recursive() {
    let recursive = options(true, false, true, false);
    assert_eq!(
        directory_step("src", false, &recursive),
        DirectoryStep::Add { read_modified: true, descend: true }
    );
    let flat = options(false, false, false, false);
    assert_eq!(directory_step("src", false, &flat), DirectoryStep::Skip);
    assert_eq!(
        directory_step("src", true, &flat),
        DirectoryStep::Add { read_modified: false, descend: false }
    );
}

#[test]
fn files_read_stats_only_when_asked() {
    assert_eq!(file_step("a.rs", &options(false, false, false, false)), FileStep::Add { read_stats: false });
    assert_eq!(file_step("a.rs", &options(false, false, false, true)), FileStep::Add { read_stats: true });
    assert_eq!(file_step("a.rs", &options(false, true, false, false)), FileStep::Add { read_stats: true });
}

#[test]
fn entries_are_routed_by_type_and_match() {
    assert_eq!(entry_route(true, false, false), EntryRoute::Directory);
    assert_eq!(entry_route(false, true, true), EntryRoute::File);
    assert_eq!(entry_route(false, true, false), EntryRoute::Ignored);
    assert_eq!(entry_route(false, false, true), EntryRoute::Ignored);
}

#[test]
fn list_pattern_compiles_or_fails() {
    let mut o = options(false, false, false, false);
    assert!(matches!(list_pattern(&o), Ok(None)));
    o.file_pattern = Some("(".to_string());
    assert!(matches!(list_pattern(&o), Err(DirectoryError::RegexError(_))));
    o.file_pattern = Some(r"\.rs$".to_string());
    let m = list_pattern(&o).unwrap();
    assert!(name_matches(&m, "src/lib.rs"));
    assert!(!name_matches(&m, "src/lib.py"));
    assert!(!name_matches(&m, "/"));
    assert!(name_matches(&None, "whatever"));
}

#[test]
fn root_node_is_a_bare_directory() {
    let r = root_node("base".to_string());
    assert_eq!(r.entry.path, "base");
    assert!(r.entry.is_dir);
    assert_eq!(r.entry.entry_type, "DIR");
    assert!(r.children.is_empty());
}

#[test]
fn recursive_line_counting_totals_the_children() {
    let o = options(true, false, false, true);
    let child = |name: &str, lines: Option<usize>| {
        file_node(name.to_string(), false, Some(file_stats(None, 1, lines)), &o)
    };
    let children = vec![child("a", Some(3)), child("b", None), child("c", Some(4))];
    let node = directory_node("d".to_string(), true, None, children, &o);
    assert!(node.entry.is_dir);
    assert!(node.entry.symlink);
    assert_eq!(node.entry.entry_type, "DIR");
    assert_eq!(node.children.len(), 3);
    let stats = node.entry.stats.unwrap();
    assert_eq!(stats.line_count, Some(7));
    assert_eq!(stats.size, None);
}

#[test]
fn directory_without_line_counting_has_no_stats() {
    let o = options(true, false, true, false);
    let t = SystemTime::UNIX_EPOCH;
    let node = directory_node("d".to_string(), false, Some(t), vec![], &o);
    assert!(node.entry.stats.is_none());
    assert_eq!(node.entry.modified, Some(t));
}

#[test]
fn file_node_shows_what_the_listing_asks_for() {
    let t = SystemTime::UNIX_EPOCH;
    let stats = FileMetadata { modified: Some(t), size: Some(10), line_count: None };
    let node = file_node("f.rs".to_string(), false, Some(stats), &options(false, true, false, false));
    assert!(!node.entry.is_dir);
    assert_eq!(node.entry.entry_type, "FILE");
    assert_eq!(node.entry.size, Some(10));
    assert_eq!(node.entry.modified, None);
    assert!(node.entry.stats.is_some());
    let bare = file_node("g".to_string(), true, None, &options(false, true, true, false));
    assert_eq!(bare.entry.size, None);
    assert!(bare.entry.stats.is_none());
}
