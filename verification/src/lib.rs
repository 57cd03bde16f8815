//! CPU inference engine for quantized language models: the rules that govern
//! loading, tokenizing, generating, caching and batching, with their proofs.

pub mod cli;
pub mod inference;
pub mod model;
pub mod text;
pub mod ui;
