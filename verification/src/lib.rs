//! A small renderer of web documents: from a string of markup to words
//! placed on a scrolling page.
//!
//! The work is done in four steps, each the input of the next:
//!
//! - [`token::lex`] cuts the markup into text and tags;
//! - [`builder::parse_tokens`] builds the document tree, however the tags
//!   nest;
//! - [`layout::layout_document`] walks the tree and places every visible
//!   word, given the sizes of the words;
//! - [`scroll`] tells how far the page can be scrolled and which words the
//!   viewport shows.
//!
//! [`session::Tundra`] holds the four together for one window, and
//! [`address`] and [`http`] hold what it takes to ask a server for the
//! markup. The library neither reads nor draws anything itself.

pub mod address;
pub mod attributes;
pub mod builder;
pub mod graph;
pub mod http;
pub mod layout;
pub mod layout_laws;
pub mod node;
pub mod scroll;
pub mod session;
pub mod style;
pub mod text;
pub mod token;
pub mod tree;
