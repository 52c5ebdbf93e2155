//! Cross-feed deduplication of RSS documents: a link-derived identity for
//! each item, a first-writer-wins registry shared by all feeds of one
//! generation, and a rewriting pass over each feed's document tree.
pub mod text;
pub mod ids;
pub mod xml;
pub mod retention;
pub mod registry;
pub mod rewrite;
pub mod feed;
pub mod opml;
pub mod schedule;
