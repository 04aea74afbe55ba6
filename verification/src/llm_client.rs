//! The language-model client: messages, prompts, the parsing of replies and
//! the bookkeeping of one request.

pub mod anthropic;
pub mod cache;
pub mod laws;
pub mod message;
pub mod prompt;
pub mod reply;
