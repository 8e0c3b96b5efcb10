//! Ranks the documents of a version-controlled book by the history of their
//! current content, and renders the ranking as a syndication feed or as an
//! inline "recently updated" listing.
//!
//! The library works on plain values: the attribution records of each
//! document, the times of the repository's commits, the text of the sources
//! and the settings of the book. Reading them, and writing the results, is
//! left to the program around it.

pub mod atom_processor;
pub mod author;
pub mod config;
pub mod link;
pub mod post;
pub mod post_finder;
pub mod preview;
pub mod selection;
pub mod text;
pub mod time;
pub mod updated_processor;

pub use atom_processor::{AtomGenerator, AtomProcessor};
pub use author::Author;
pub use post::Post;
pub use post_finder::PostFinder;
pub use updated_processor::UpdatedProcessor;
