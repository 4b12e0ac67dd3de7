//! Parsing of Markdown sources: frontmatter and post metadata.

pub mod frontmatter;
pub mod markdown;

pub use markdown::{BlogPost, ContentKind, PostMetadata};
