//! A rule-filtered directory traversal engine.
//!
//! The crate compiles gitignore-style pattern lines into rules, layers those
//! rules into directory-rooted scopes, and drives a depth-first walk as a
//! pull-based state machine.  The walker itself never touches a filesystem:
//! a host loop reads directories and answers the walker's requests, so every
//! decision the engine makes — precedence between scopes, negation,
//! subtree pruning, depth and size bounds, symlink-cycle refusal — is
//! verified here.

pub mod options;
pub mod pattern;
pub mod rules;
pub mod walker;
