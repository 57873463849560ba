//! A local configuration store for an image-generation tool.
//!
//! Presets (bundles of model, sampling, prompt and image settings), a model
//! catalog and a small tagging system are persisted in an embedded SQLite
//! database.  Nested configuration objects are stored as JSON text in single
//! columns; malformed or legacy-shaped JSON is replaced by documented
//! defaults on read rather than surfaced as an error.  Cross-reference
//! queries (tag usage counts, presets referencing a model) are computed in
//! memory over the decoded rows.

pub mod codec;
pub mod config;
pub mod db;
pub mod json;
pub mod store;
pub mod text;

pub use config::{
    ImageConfig, JsonNumber, LoRA, ModelConfig, ModelInfo, ModelUsageInfo, PresetConfig,
    PromptConfig, SamplingConfig, Tag,
};
pub use store::Database;
