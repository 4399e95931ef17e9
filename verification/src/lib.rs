//! Live fuzzy search over the text files of a directory tree: the search
//! engine, the navigation state machine and the preview viewport.

pub mod app;
pub mod document;
pub mod laws;
pub mod matcher;
pub mod nav;
pub mod render;
pub mod scan;
pub mod search;
pub mod text;
pub mod walk;
