//! Scraping chapter lists, links, titles and chapter text out of web-novel
//! pages, and laying the chapters out as markdown files for an epub.

pub mod async_mode;
pub mod book;
pub mod links;
pub mod number;
pub mod sync_mode;
pub mod text;
pub mod utils;
