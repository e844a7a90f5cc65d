//! What the cursors need to know of the syntax of a text.

pub mod util;
