//! The decisions of a directory listing: which entries it keeps, what it
//! reads about them, and the tree nodes it builds from what was read. The
//! walk itself, and the reads, belong to the caller.

use vstd::prelude::*;
use vstd::string::*;
use vstd::utf8::*;
use crate::types::{FileMetadata, ListEntry, ListOptions, TreeEntry};
use crate::error::DirectoryError;
use crate::fs_ops::{in_git_dir, is_in_git_dir};
use crate::grep::{LineMatcher, regex_compiles, regex_matches};
use crate::path_utils::{file_name, file_name_of};
use crate::strbuf::{string_bytes, to_owned_string, as_str};

verus! {

broadcast use vstd::utf8::group_utf8_lib;

/// The bytes of the type name given to directories.
pub open spec fn dir_type_name() -> Seq<u8> {
    seq![68u8, 73u8, 82u8]
}

/// The bytes of the type name given to files.
pub open spec fn file_type_name() -> Seq<u8> {
    seq![70u8, 73u8, 76u8, 69u8]
}

proof fn lemma_dir_type_name()
    ensures
        "DIR".spec_bytes() == dir_type_name(),
{
    reveal_strlit("DIR");
    assert(is_ascii("DIR"));
    is_ascii_spec_bytes("DIR");
    assert("DIR".spec_bytes() =~= dir_type_name());
}

proof fn lemma_file_type_name()
    ensures
        "FILE".spec_bytes() == file_type_name(),
{
    reveal_strlit("FILE");
    assert(is_ascii("FILE"));
    is_ascii_spec_bytes("FILE");
    assert("FILE".spec_bytes() =~= file_type_name());
}

/// What happens to a directory met in a listing.
#[derive(Debug, Clone, Copy, PartialEq, Eq, Structural)]
pub enum DirectoryStep {
    /// Left out of the listing.
    Skip,
    /// Listed; its modification time is read when `read_modified`, and its
    /// contents are listed below it when `descend`.
    Add { read_modified: bool, descend: bool },
}

/// What happens to a file met in a listing.
#[derive(Debug, Clone, Copy, PartialEq, Eq, Structural)]
pub enum FileStep {
    /// Left out of the listing.
    Skip,
    /// Listed; its size, time and line count are read when `read_stats`.
    Add { read_stats: bool },
}

/// How an entry of a directory is handled, by its type and by whether its
/// name matched the listing's pattern.
#[derive(Debug, Clone, Copy, PartialEq, Eq, Structural)]
pub enum EntryRoute {
    Directory,
    File,
    Ignored,
}

/// Directories inside `.git` are left out; others are listed when their
/// name matched or the listing is recursive.
pub open spec fn directory_step_for(relative_path: Seq<u8>, matches: bool, options: ListOptions) -> DirectoryStep {
    if in_git_dir(relative_path) {
        DirectoryStep::Skip
    } else if matches || options.recursive {
        DirectoryStep::Add { read_modified: options.include_modified, descend: options.recursive }
    } else {
        DirectoryStep::Skip
    }
}

/// Files inside `.git` are left out; others are listed, with their stats
/// read when the listing asks for a size, a time or a line count.
pub open spec fn file_step_for(relative_path: Seq<u8>, options: ListOptions) -> FileStep {
    if in_git_dir(relative_path) {
        FileStep::Skip
    } else {
        FileStep::Add { read_stats: options.include_size || options.include_modified || options.count_lines }
    }
}

/// Directories go on to `directory_step`, matching files to `file_step`,
/// anything else is passed over.
pub open spec fn entry_route_for(is_dir: bool, is_file: bool, matches: bool) -> EntryRoute {
    if is_dir {
        EntryRoute::Directory
    } else if is_file && matches {
        EntryRoute::File
    } else {
        EntryRoute::Ignored
    }
}

/// A listed file's stats are read exactly when the listing shows something
/// taken from them: its size, its modified time or its line count; files
/// inside `.git` are never listed, all others are.
pub proof fn law_file_stats_read_when_shown(relative_path: Seq<u8>, options: ListOptions)
    ensures
        in_git_dir(relative_path) <==> file_step_for(relative_path, options) is Skip,
        options.include_modified && !in_git_dir(relative_path) ==> file_step_for(relative_path, options)
            == (FileStep::Add { read_stats: true }),
        options.include_size && !in_git_dir(relative_path) ==> file_step_for(relative_path, options)
            == (FileStep::Add { read_stats: true }),
        options.count_lines && !in_git_dir(relative_path) ==> file_step_for(relative_path, options)
            == (FileStep::Add { read_stats: true }),
        !options.include_modified && !options.include_size && !options.count_lines && !in_git_dir(
            relative_path,
        ) ==> file_step_for(relative_path, options) == (FileStep::Add { read_stats: false }),
{
}

/// A directory is listed exactly when it is not inside `.git` and its name
/// matched or the listing is recursive; a listed directory has its modified
/// time read exactly when the listing shows modified times, recursive or
/// not, and is descended into exactly when the listing is recursive.
pub proof fn law_directory_listed_with_asked_time(relative_path: Seq<u8>, matches: bool, options: ListOptions)
    ensures
        !(directory_step_for(relative_path, matches, options) is Skip) <==> (!in_git_dir(relative_path) && (
        matches || options.recursive)),
        directory_step_for(relative_path, matches, options) matches DirectoryStep::Add {
            read_modified,
            descend,
        } ==> read_modified == options.include_modified && descend == options.recursive,
{
}

pub fn entry_route(is_dir: bool, is_file: bool, matches: bool) -> (r: EntryRoute)
    ensures
        r == entry_route_for(is_dir, is_file, matches),
{
    if is_dir {
        EntryRoute::Directory
    } else if is_file && matches {
        EntryRoute::File
    } else {
        EntryRoute::Ignored
    }
}

pub fn directory_step(relative_path: &str, matches: bool, options: &ListOptions) -> (r: DirectoryStep)
    ensures
        r == directory_step_for(relative_path.spec_bytes(), matches, *options),
{
    if is_in_git_dir(relative_path) {
        DirectoryStep::Skip
    } else if matches || options.recursive {
        DirectoryStep::Add { read_modified: options.include_modified, descend: options.recursive }
    } else {
        DirectoryStep::Skip
    }
}

pub fn file_step(relative_path: &str, options: &ListOptions) -> (r: FileStep)
    ensures
        r == file_step_for(relative_path.spec_bytes(), *options),
{
    if is_in_git_dir(relative_path) {
        FileStep::Skip
    } else {
        FileStep::Add { read_stats: options.include_size || options.include_modified || options.count_lines }
    }
}

/// The expression that the listing's names must match, compiled as it is
/// written; the error of an expression that does not compile.
pub fn list_pattern(options: &ListOptions) -> (r: Result<Option<LineMatcher>, DirectoryError>)
    ensures
        match options.file_pattern {
            None => r == Ok::<Option<LineMatcher>, DirectoryError>(None),
            Some(p) => match r {
                Ok(Some(m)) => regex_compiles(p@, false) && m.source() == p@ && !m.ignores_case(),
                Ok(None) => false,
                Err(e) => !regex_compiles(p@, false) && e is RegexError,
            },
        },
{
    match &options.file_pattern {
        None => Ok(None),
        Some(p) => match LineMatcher::build(as_str(p), false) {
            Ok(m) => Ok(Some(m)),
            Err(msg) => Err(DirectoryError::RegexError(msg)),
        },
    }
}

/// Whether an entry's name matches the listing's expression: with none,
/// every name does; a path without a name is matched as the empty name.
pub open spec fn name_matches_for(pattern: Option<LineMatcher>, path: Seq<u8>) -> bool {
    match pattern {
        None => true,
        Some(m) => regex_matches(
            m.source(),
            m.ignores_case(),
            match file_name_of(path) {
                Some(n) => decode_utf8(n),
                None => Seq::<char>::empty(),
            },
        ),
    }
}

pub fn name_matches(pattern: &Option<LineMatcher>, path: &str) -> (r: bool)
    ensures
        r == name_matches_for(*pattern, path.spec_bytes()),
{
    match pattern {
        None => true,
        Some(m) => {
            let name = match file_name(path) {
                Some(n) => n,
                None => "",
            };
            proof {
                reveal_strlit("");
                encode_utf8_decode_utf8(name@);
                match file_name_of(path.spec_bytes()) {
                    Some(n) => assert(name@ == decode_utf8(n)),
                    None => assert(name@ =~= Seq::<char>::empty()),
                }
            }
            m.is_match(name)
        },
    }
}

/// The line count that an entry carries in its stats, 0 where it has none.
pub open spec fn entry_line_count(t: TreeEntry) -> nat {
    match t.entry.stats {
        Some(s) => match s.line_count {
            Some(l) => l as nat,
            None => 0,
        },
        None => 0,
    }
}

/// The line counts of the entries, added up.
pub open spec fn total_line_count(ts: Seq<TreeEntry>) -> nat
    decreases ts.len(),
{
    if ts.len() == 0 {
        0
    } else {
        total_line_count(ts.drop_last()) + entry_line_count(ts.last())
    }
}

proof fn lemma_total_line_count_prefix(ts: Seq<TreeEntry>, i: int)
    requires
        0 <= i <= ts.len(),
    ensures
        total_line_count(ts.subrange(0, i)) <= total_line_count(ts),
    decreases ts.len() - i,
{
    if i < ts.len() {
        lemma_total_line_count_prefix(ts, i + 1);
        assert(ts.subrange(0, i + 1).drop_last() =~= ts.subrange(0, i));
    } else {
        assert(ts.subrange(0, i) =~= ts);
    }
}

/// The entry of a directory or file node before anything read is added.
fn bare_entry(path: String, is_dir: bool, is_symlink: bool, entry_type: &str) -> (r: ListEntry)
    ensures
        r.path == path,
        r.is_dir == is_dir,
        r.symlink == is_symlink,
        string_bytes(r.entry_type) == entry_type.spec_bytes(),
        r.size is None,
        r.modified is None,
        r.stats is None,
{
    ListEntry {
        path,
        is_dir,
        symlink: is_symlink,
        entry_type: to_owned_string(entry_type),
        size: None,
        modified: None,
        stats: None,
    }
}

/// The root node of a listing: a directory with no children yet.
pub fn root_node(relative_path: String) -> (r: TreeEntry)
    ensures
        r.entry.path == relative_path,
        r.entry.is_dir,
        !r.entry.symlink,
        string_bytes(r.entry.entry_type) == dir_type_name(),
        r.entry.size is None,
        r.entry.modified is None,
        r.entry.stats is None,
        r.children@.len() == 0,
{
    proof {
        lemma_dir_type_name();
    }
    TreeEntry { entry: bare_entry(relative_path, true, false, "DIR"), children: Vec::new() }
}

/// The node of a listed directory, given its modification time (where it
/// was read) and the nodes listed below it. A recursive listing that counts
/// lines gives it the total line count of its children.
pub fn directory_node(
    relative_path: String,
    is_symlink: bool,
    modified: Option<std::time::SystemTime>,
    children: Vec<TreeEntry>,
    options: &ListOptions,
) -> (r: TreeEntry)
    requires
        options.recursive && options.count_lines ==> total_line_count(children@) <= usize::MAX,
    ensures
        r.entry.path == relative_path,
        r.entry.is_dir,
        r.entry.symlink == is_symlink,
        string_bytes(r.entry.entry_type) == dir_type_name(),
        r.entry.size is None,
        r.entry.modified == modified,
        r.children@ == children@,
        if options.recursive && options.count_lines {
            &&& r.entry.stats matches Some(s)
            &&& s.line_count == Some(total_line_count(children@) as usize)
            &&& s.size is None
            &&& s.modified is None
        } else {
            r.entry.stats is None
        },
{
    proof {
        lemma_dir_type_name();
    }
    let mut entry = bare_entry(relative_path, true, is_symlink, "DIR");
    entry.modified = modified;
    if options.recursive && options.count_lines {
        let mut total: usize = 0;
        let mut k: usize = 0;
        while k < children.len()
            invariant
                k <= children@.len(),
                total_line_count(children@) <= usize::MAX,
                total == total_line_count(children@.subrange(0, k as int)),
            decreases children@.len() - k,
        {
            proof {
                assert(children@.subrange(0, k + 1).drop_last() =~= children@.subrange(0, k as int));
                lemma_total_line_count_prefix(children@, k + 1);
            }
            match &children[k].entry.stats {
                Some(stats) => match stats.line_count {
                    Some(lines) => {
                        total = total + lines;
                    },
                    None => {},
                },
                None => {},
            }
            k = k + 1;
        }
        assert(children@.subrange(0, children@.len() as int) =~= children@);
        entry.stats = Some(FileMetadata { line_count: Some(total), size: None, modified: None });
    }
    TreeEntry { entry, children }
}

/// The node of a listed file, given its stats where they were read: the
/// size and the time are shown as the listing asks, the stats are kept.
pub fn file_node(
    relative_path: String,
    is_symlink: bool,
    stats: Option<FileMetadata>,
    options: &ListOptions,
) -> (r: TreeEntry)
    ensures
        r.entry.path == relative_path,
        !r.entry.is_dir,
        r.entry.symlink == is_symlink,
        string_bytes(r.entry.entry_type) == file_type_name(),
        r.entry.size == (match stats {
            Some(s) => if options.include_size { s.size } else { None },
            None => None,
        }),
        r.entry.modified == (match stats {
            Some(s) => if options.include_modified { s.modified } else { None },
            None => None,
        }),
        r.entry.stats == stats,
        r.children@.len() == 0,
{
    proof {
        lemma_file_type_name();
    }
    let mut entry = bare_entry(relative_path, false, is_symlink, "FILE");
    match &stats {
        Some(s) => {
            if options.include_size {
                entry.size = s.size;
            }
            if options.include_modified {
                entry.modified = s.modified;
            }
        },
        None => {},
    }
    entry.stats = stats;
    TreeEntry { entry, children: Vec::new() }
}

/// What the stats of a file say: its time and size as read, and its line
/// count (as `str::lines` counts them) where lines are counted.
pub fn file_stats(modified: Option<std::time::SystemTime>, size: u64, line_count: Option<usize>) -> (r: FileMetadata)
    ensures
        r.modified == modified,
        r.size == Some(size),
        r.line_count == line_count,
{
    FileMetadata { modified, size: Some(size), line_count }
}

} // verus!
