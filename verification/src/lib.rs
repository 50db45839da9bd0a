//! Core of a model-serving library: a neutral serialisable value type with a
//! JSON wire codec, conversions to and from an inference engine's value
//! universe (including an NPY tensor codec), a semantic input validator, a
//! concurrent model registry, and a FIFO scheduler core.

pub mod cache;
pub mod engine;
pub mod errors;
pub mod executor;
pub mod json;
pub mod json_laws;
pub mod model;
pub mod scheduler;
pub mod semantics;
pub mod statistics;
pub mod tensor;
pub mod value;
