//! Lists the links held by `.webloc` bookmark files as Markdown.
//!
//! The library decides which directory entries are bookmarks, pulls the
//! URL out of a bookmark's lines, and renders the output lines; walking
//! directories and reading files is left to the caller.
pub mod name;
pub mod link;
pub mod report;
