//! Cursor motion over a text held in a rope: word and code boundaries, and
//! the partner of a bracket.
//!
//! Offsets count codepoints. [`rope`] holds the text, in a rope of `xi_rope`,
//! and says what the rope's cursor does; [`cursor`] steps over the text one
//! codepoint at a time; [`word`] classifies codepoints and moves by words;
//! [`bracket`] finds the partner of a bracket, with the pairs that
//! [`syntax`] knows.

pub mod bracket;
pub mod cursor;
pub mod rope;
pub mod syntax;
pub mod word;
