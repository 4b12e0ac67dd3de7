//! Turning posts into a site: what goes where, and the RSS feed.

pub mod html;
pub mod rss;
pub mod template;
