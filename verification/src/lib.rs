//! LDraw part files: from the lines of a file to its commands, from the commands
//! to the geometry of the file, and from the files of a model to one list of
//! triangles.
//!
//! Coordinates are kept as the text that the files hold. Every line, file and
//! model is checked and put together here; turning coordinates into binary
//! numbers and multiplying them out is left to the consumer of the triangles.

pub mod brick;
pub mod command;
pub mod grammar;
pub mod laws;
pub mod number;
pub mod part;
pub mod resolver;
pub mod text;
pub mod tokenizer;
