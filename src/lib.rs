//! Compiles a vault of Obsidian-flavoured markdown notes into a static site:
//! link, tag and block-label extraction, text protection across passes, link
//! resolution, the tag tree, the backlink index and the incremental rebuild rules.

// Text and paths
pub mod chars;
pub mod paths;
pub mod slug;
pub mod text;

// Protection of spans across passes
pub mod placeholders;
pub mod sanitization;

// Inline syntax and line machines
pub mod admonitions;
pub mod comments;
pub mod extract;
pub mod headers;
pub mod link;
pub mod raw_html;

// Notes and their rendering
pub mod formatting;
pub mod frontmatter;
pub mod html;
pub mod note;
pub mod utils;

// The vault, the tag tree and the build
pub mod config;
pub mod errors;
pub mod exporter;
pub mod filesys;
pub mod setup;
pub mod tag_nav;
pub mod tag_tree;

// Math preambles
pub mod preamble;
