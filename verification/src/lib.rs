//! Orchestration of image-generation requests: placeholder resolution in
//! prompt templates, sequential dispatch to a generation engine, aggregation
//! of per-image outcomes, and a recency-ordered index of produced images.

pub mod text;
pub mod index;
pub mod placeholder;
pub mod random;
pub mod variables;
pub mod template;
pub mod dispatch;
pub mod aggregate;
pub mod engine;
pub mod request;
