//! Orchestration of a staged translation of C programs: prompts, reply
//! parsing, request bookkeeping, scheduling and the repair loop.

pub mod text;
pub mod llm_client;
pub mod graph;
pub mod translation;
