//! Errors of the library.

use vstd::prelude::*;

verus! {

/// What can go wrong while reading requirement markers or rendering code blocks.
#[derive(Debug)]
pub enum Error {
    /// A requirement marker with an empty or invalid identifier, or one defined twice.
    DuplicateReq(String),
    /// A code block handler (or a requirement attribute) could not be rendered.
    CodeBlockHandler { language: String, message: String },
}

} // verus!
