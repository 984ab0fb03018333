//! Composition of one context text from a document of reusable blocks: text
//! blocks with alternative variants, file blocks, and shadow blocks whose
//! variants define variables that `{{name}}` placeholders take their values from.

pub mod compose;
pub mod laws;
pub mod model;
pub mod paths;
pub mod text;
pub mod workspace;
