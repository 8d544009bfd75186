//! The core of an interactive read-eval-print loop for Rust: after each
//! line that is typed, it decides whether the text so far can be handed to
//! the compiler.
//!
//! - [`parser`] classifies text: [`parser::parse_input`] says whether it is
//!   good as it is, needs a semicolon, or is not finished.
//! - [`is_incomplete`] answers only the last of these questions.
//! - [`scan`] defines the scanner that both are held to, [`regions`] and
//!   [`tracking`] prove that the executable scans follow it, and [`laws`]
//!   states what holds of the classifier on every text.
//! - [`keywords`] and [`words`] hold the words that the scanner collects.
//! - [`session`] decides what the loop does with a line, [`template`] puts
//!   code into the frame that is compiled, and [`workspace`] names the
//!   directory that a session works in.
//! - [`text`] moves between strings and vectors of characters.

pub mod is_incomplete;
pub mod keywords;
pub mod laws;
pub mod parser;
pub mod regions;
pub mod scan;
pub mod session;
pub mod template;
pub mod text;
pub mod tracking;
pub mod words;
pub mod workspace;
