//! Device-independent core of an autoregressive transformer engine: strided
//! tensor views, per-layer key/value caches, the planning of a forward pass
//! with grouped-query attention, kernel configuration for the accelerator
//! backend, and the errors the serving layer reports.

pub mod dtype;
pub mod error;
pub mod kernels;
pub mod tensor;
pub mod cache;
pub mod transformer;
