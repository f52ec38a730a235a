//! Migrating the content of a legacy content-management system, its authors,
//! tags, posts and their images, to a destination content API.
//!
//! This library holds the decisions of the migration, each with its
//! contract: how a legacy asset URL is rewritten and resolved to a file
//! (`rewriter`), how a post body becomes destination HTML (`transformer`,
//! `body`, with what holds of every document in `placement`), what is sent
//! for an asset and what the destination's answer means (`image`, `submit`,
//! `http`), and how one entity's unit of work and a batch of units proceed
//! (`orchestrator`). Reading the data source, reading files and talking to
//! the destination are left to the caller.
//!
//! Text is handled as sequences of characters (`text`); the pattern engine,
//! which counts in bytes, is asked through `matching`, which converts
//! (`offsets`). The calls into other crates stand in `bindings`.

pub mod authors;
pub mod bindings;
pub mod body;
pub mod cli;
pub mod config;
pub mod http;
pub mod image;
pub mod matching;
pub mod offsets;
pub mod orchestrator;
pub mod placement;
pub mod posts;
pub mod rewriter;
pub mod submit;
pub mod tags;
pub mod text;
pub mod transformer;

pub use rewriter::process_image_url;
pub use transformer::text_to_html_paragraphs;
