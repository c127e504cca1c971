//! Incident reports: the template engine, the report text and the model prompt.

pub mod template;
pub mod render;
pub mod ollama;
