//! Rules that select paths for an exclusion flag, and the decisions a watcher
//! takes when the filesystem changes.
//!
//! `ignorefile` compiles the lines of a rule file into matchers, `watcher`
//! turns each observed change into the flag updates it calls for.

pub mod ignorefile;
pub mod text;
pub mod watcher;
