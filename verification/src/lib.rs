//! A terminal-emulation core: a streaming tokenizer that classifies a raw byte
//! stream into literal text, C0 control codes and structured escape commands,
//! together with the escape-sequence grammar and the screen grid that consumes
//! the resulting token stream.

pub mod enums;
pub mod input;
pub mod parsers;
pub mod scalar;
pub mod screen;
pub mod tokenizer;
