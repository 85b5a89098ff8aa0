//! The rules of the Voxtral speech-to-text backend, from the protocol it speaks
//! to the tokens it decodes. The arithmetic on tensors and samples is not part
//! of them.

pub mod arith;
pub mod audio;
pub mod checkpoint;
pub mod config;
pub mod decoding;
pub mod engine;
pub mod files;
pub mod prompt;
pub mod protocol;
pub mod reference;
pub mod settings;
pub mod shapes;
pub mod taps;
pub mod text;
pub mod tokenizer;
pub mod transcript;
