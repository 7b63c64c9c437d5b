pub mod agent;
pub mod chat_table;
pub mod chunks;
pub mod cli;
pub mod clock;
pub mod commands;
pub mod compaction;
pub mod config;
pub mod daemon;
pub mod gateway;
pub mod json;
pub mod logging;
pub mod markdown;
pub mod mcp;
pub mod onboarding;
pub mod order;
pub mod pending;
pub mod prompts;
pub mod provider;
pub mod replies;
pub mod scheduler;
pub mod service;
pub mod settings;
pub mod storage;
pub mod table;
pub mod text;
pub mod tools;
pub mod wire;
