//! The values that page templates show besides posts.

use vstd::prelude::*;

verus! {

/// A link to a standalone page in the site's navigation.
#[derive(Clone, Debug)]
pub struct PageLink {
    pub label: String,
    pub url: String,
}

/// A link to the previous or next post.
#[derive(Clone, Debug)]
pub struct PostNav {
    pub title: String,
    pub url: String,
}

/// The giscus settings a page template embeds.
#[derive(Clone, Debug)]
pub struct CommentsConfigTemplate {
    pub repo: String,
    pub repo_id: String,
    pub category: String,
    pub category_id: String,
    pub mapping: String,
    pub strict: String,
    pub reactions_enabled: String,
    pub emit_metadata: String,
    pub input_position: String,
    pub theme: String,
    pub lang: String,
}

} // verus!
