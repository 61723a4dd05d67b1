//! Rendering of short social-media posts into a structured, markup-ready
//! document tree.
//!
//! A post arrives as raw text plus position-tagged annotations (links,
//! hashtags, mentions), a set of media attachment keys, and references to
//! other posts. The library turns that into a tree of paragraphs, lines and
//! runs: plain text, links and line breaks, together with the renderable
//! media and an optionally embedded quoted post. Serialization to HTML (or
//! any other markup) is left to the caller.
//!
//! All annotation offsets are indices into the text's sequence of Unicode
//! codepoints, never into its byte storage; [`offsets`] converts between the
//! two so that multi-byte characters cannot corrupt a slice.

pub mod collect;
pub mod media;
pub mod merge;
pub mod model;
pub mod offsets;
pub mod render;
pub mod secrets;
pub mod segment;
