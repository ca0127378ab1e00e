//! Condensed views of source files and a searchable index of code units.
//!
//! The library serves an assistant that looks into a repository without
//! reading whole files:
//!
//! - [`analysis`] makes the skeleton of a file, in which the bodies of the
//!   definitions are folded into a placeholder, and keeps it under a key made
//!   of the path and the text;
//! - [`chunker`] cuts a file into its declarations, each with the
//!   documentation in front of it;
//! - [`indexer`] pairs the chunks with their embedding vectors and ranks the
//!   entries of the index for a query;
//! - [`git`] and [`tools`] plan the commands and the tool calls of the
//!   assistant.
//!
//! Source text is parsed by tree-sitter behind [`syntax`], with the grammars
//! of [`registry`]. The library reads no file and runs no program: callers
//! hand it texts and outcomes, and carry out what it plans.

pub mod analysis;
pub mod chunker;
pub mod fold;
pub mod git;
pub mod indexer;
pub mod lines;
pub mod order;
pub mod registry;
pub mod syntax;
pub mod text;
pub mod tools;
