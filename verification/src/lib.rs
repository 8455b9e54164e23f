//! A byte-level GPT-style language model toolkit: the integer-valued parts of
//! tokenization, training-data batching, generation control and training
//! bookkeeping, each with its contract.

pub mod tokenizer;
pub mod data;
pub mod errors;
pub mod rng;
pub mod metrics;
pub mod generate;
pub mod text;
pub mod dashboard;
pub mod layers;
pub mod training;
