//! A greeter: a plain greeting sentence, and a display form of it in which
//! every word is capitalised, words are single-spaced and the sentence ends
//! with an exclamation mark.

pub mod casing;
pub mod component;
pub mod greeting;
pub mod join;
pub mod trusted;
pub mod whitespace;
pub mod words;

pub use casing::{capitalize, capitalize_words, replace_initial};
pub use component::{format_greeting, GreeterComponent};
pub use greeting::hello;
pub use join::join_words;
pub use whitespace::is_whitespace;
pub use words::split_words;
