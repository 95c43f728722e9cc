//! A minimal static site generator: front-matter parsing, URL derivation,
//! the post index and the template contexts of each page.
pub mod text;
pub mod frontmatter;
pub mod site;
pub mod listing;
pub mod plan;
