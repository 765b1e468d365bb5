//! Content pipeline of a small static site generator: front matter, markdown
//! conversion with heading and preview extraction, tables of contents, the
//! catalog of posts by category and the order in which the site is rendered,
//! and the local file server's reading of requests.

pub mod catalog;
pub mod header;
pub mod markdown;
pub mod order;
pub mod request;
pub mod site;
pub mod text;
pub mod toc;

pub use catalog::{convert_posts, CategoryIndex, Post, PostMeta};
pub use header::{split_md_and_header, PostHeader};
pub use markdown::{convert_markdown, ConvertedMarkdown, TocHeading};
pub use order::{compare_header_date, compare_option};
