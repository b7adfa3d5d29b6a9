//! What is on the screen: texts with what they stand for, and where they are.
pub mod dialog;
pub mod laws;
pub mod row;
pub mod screen;
pub mod status;
pub mod text;
