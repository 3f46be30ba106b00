//! Shows the contents of text files: short files as one aligned row each,
//! longer files as blocks below them.
//!
//! The library holds the decisions: how a file's content is classified
//! ([`text`]), how a list of classified files becomes the printed report
//! ([`render`]), and which files a command line selects ([`args`]).

pub mod args;
pub mod render;
pub mod text;
