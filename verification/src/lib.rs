//! The steering plane of a voice interface to coding agents.
pub mod auth;
pub mod clock;
pub mod daemon;
pub mod forms;
pub mod frames;
pub mod hermes_search;
pub mod interactions;
pub mod journal;
pub mod json;
pub mod lanes;
pub mod lookup;
pub mod meta;
pub mod ntfy;
pub mod openai;
pub mod paths;
pub mod phrases;
pub mod proto;
pub mod relay;
pub mod revision;
pub mod selection;
pub mod steering;
pub mod text;
pub mod transcript;
pub mod trees;
pub mod value;
