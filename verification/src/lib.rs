//! Validation and structural decomposition of Conventional Commit messages.
//!
//! A raw commit message is split into header, summary, body and footer
//! regions, the commit type is classified against a closed vocabulary,
//! breaking-change markers are detected, and the result is either a populated
//! [`commit::ConventionalCommit`] record or a batch of diagnostics describing
//! why the input is invalid.

pub mod commit;
pub mod parser;
pub mod text;
