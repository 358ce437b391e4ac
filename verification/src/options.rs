//! The immutable configuration snapshot a walker is built from.

use vstd::prelude::*;

verus! {

/// Configuration for one walk.  A `Walker` holds its options unchanged for
/// its whole lifetime.
///
/// Pattern lists are lines of the gitignore dialect.  `additional_ignores`
/// are literal extra lines applied at the root scope; `additional_ignore_paths`
/// are extra file names to treat as ignore files in every directory (the host
/// loop reads them); `overrides` are highest-precedence lines in which a plain
/// pattern force-includes and a `!` pattern force-excludes.
pub struct WalkOptions {
    /// Exclude entries whose name starts with a dot.
    pub ignore_hidden: bool,
    /// Honor ignore files at all; when false, only overrides, literal extra
    /// patterns and the built-in checks apply.
    pub read_ignore_files: bool,
    /// Also honor ignore lines gathered from ancestors of the root.
    pub read_parents_ignores: bool,
    /// Honor per-directory VCS ignore files.
    pub read_git_ignore: bool,
    /// Honor the global VCS ignore file.
    pub read_global_git_ignore: bool,
    /// Honor the repository's exclude file.
    pub read_git_exclude: bool,
    /// Only activate VCS sources when a VCS root marker was found.
    pub require_git: bool,
    /// Literal extra pattern lines, applied at the root scope.
    pub additional_ignores: Vec<Vec<u8>>,
    /// Extra ignore-file names to read in every directory.
    pub additional_ignore_paths: Vec<Vec<u8>>,
    /// Override pattern lines, consulted before every ignore-file scope.
    pub overrides: Vec<Vec<u8>>,
    /// Greatest entry depth yielded; `0` keeps only the root's own entries.
    pub max_depth: Option<usize>,
    /// Greatest byte size of a yielded file entry.
    pub max_filesize: Option<u64>,
    /// Follow symbolic links to directories, with cycle protection.
    pub follow_links: bool,
    /// Case-fold all pattern matching.
    pub case_insensitive: bool,
    /// Exclude entries on another device than the root.
    pub same_file_system: bool,
    /// Consult the host's entry predicate once per surviving candidate.
    pub use_entry_filter: bool,
}

impl Default for WalkOptions {
    /// The documented defaults: hidden entries excluded, every ignore-file
    /// source honored without requiring a VCS root, no extra patterns, no
    /// bounds, links not followed, case-sensitive, one filesystem not
    /// required, no entry predicate.
    fn default() -> (r: Self)
        ensures
            r.ignore_hidden,
            r.read_ignore_files,
            r.read_parents_ignores,
            r.read_git_ignore,
            r.read_global_git_ignore,
            r.read_git_exclude,
            !r.require_git,
            r.additional_ignores@.len() == 0,
            r.additional_ignore_paths@.len() == 0,
            r.overrides@.len() == 0,
            r.max_depth is None,
            r.max_filesize is None,
            !r.follow_links,
            !r.case_insensitive,
            !r.same_file_system,
            !r.use_entry_filter,
    {
        WalkOptions {
            ignore_hidden: true,
            read_ignore_files: true,
            read_parents_ignores: true,
            read_git_ignore: true,
            read_global_git_ignore: true,
            read_git_exclude: true,
            require_git: false,
            additional_ignores: Vec::new(),
            additional_ignore_paths: Vec::new(),
            overrides: Vec::new(),
            max_depth: None,
            max_filesize: None,
            follow_links: false,
            case_insensitive: false,
            same_file_system: false,
            use_entry_filter: false,
        }
    }
}

} // verus!
