//! Compiles a markdown document into a deck of slides: an optional YAML
//! header, slide splitting, per-slide directives, blocks and inline spans,
//! the diagram language, layouts and reveal steps.
pub mod blocks;
pub mod diagram;
pub mod frontmatter;
pub mod grid_transition;
pub mod inline;
pub mod layout;
pub mod lines;
pub mod list;
pub mod model;
pub mod split_content;
pub mod splitter;
pub mod text;
pub mod transition;
