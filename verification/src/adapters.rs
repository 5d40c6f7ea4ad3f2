//! Readers for venues' own published documents.

pub mod sse;
