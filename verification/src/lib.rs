//! A minimal transformer-style language model with a verified core:
//! an exact dense matrix/vector algebra over 64-bit integer scalars,
//! the model structure (embedding table, attention layers, unembedding),
//! seeded random initialization, context validation and embedding lookup,
//! raw attention scores, attention-weighted layer evaluation, and the
//! unembedding projection to per-token logits. The real-valued steps —
//! softmax normalization, sigmoid, temperature scaling — are left to the
//! caller, since they have no exact integer form.

pub mod error;
pub mod gpt;
pub mod matrix;
mod rng;
