//! Markdown document tree, renderer and structure-aware diff, with the
//! requirement-marker and link-resolution logic of the surrounding site
//! generator.

pub mod ast;
pub mod error;
pub mod handler;
pub mod handlers;
pub mod lcs;
pub mod text;
pub mod render;
pub mod words;
pub mod chars;
pub mod reqs;
pub mod diff;
pub mod events;
pub mod parse;
pub mod links;

pub use ast::{Alignment, Block, Inline};
pub use diff::{diff_markdown, diff_markdown_inline};
pub use error::Error;
pub use parse::parse;
pub use render::render_to_markdown;
