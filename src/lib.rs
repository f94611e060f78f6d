//! Generates a table of contents for index pages of a book: the links to the
//! documents and sub-books that sit beside the page, spliced in where the page
//! holds the `{{TOC}}` marker.

pub mod text;
pub mod toc;
pub mod page;
pub mod readme_summary;
