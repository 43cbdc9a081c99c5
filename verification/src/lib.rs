//! `conventional` — a small parser for Conventional Commits messages.
//!
//! The entry point is [`parse`], which turns a raw commit message into a
//! [`Commit`] with the type, scope, breaking-change flag, description, body
//! and footers already split apart. Every public function states, over the
//! character-level model in [`text`], exactly what it returns.

pub mod commit;
pub mod error;
pub mod laws;
pub mod report;
pub mod text;

pub use commit::{parse, Commit, CommitKind, Footer, Section};
pub use error::{Error, Result, SpecError};
