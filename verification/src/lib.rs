//! agent-heart: scheduled agent-brain garbage collection, predictive token budgeting
//! and bash script linting.

pub mod brain_client;
pub mod config;
pub mod finetune;
pub mod lint;
pub mod mcp_server;
pub mod stats;
pub mod text;
pub mod token_budget;
pub mod wide;
