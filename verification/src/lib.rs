//! Path headers for source files: the comment at the top of a file that states
//! the file's path, how to recognise one, and how to rewrite a file so that it
//! carries the right one.

pub mod args;
pub mod cli;
pub mod comments;
pub mod guarantees;
pub mod ignored;
pub mod normalize;
pub mod paths;
pub mod pattern;
pub mod rejoin;
pub mod report;
pub mod text;
