//! Building blocks for autonomous agents: conversational sessions, provider
//! wire protocols, long-term memory and sandbox policy, with every decision
//! stated as a contract and proved.

pub mod text;
pub mod lists;
pub mod json;
pub mod schema;
pub mod error;
pub mod message;
pub mod sse;
pub mod event_reader;
pub mod provider;
pub mod chat_stream;
pub mod openai;
pub mod anthropic_stream;
pub mod anthropic;
pub mod id_map;
pub mod gemini_wire;
pub mod gemini;
pub mod ids;
pub mod session;
pub mod sqlite_session;
pub mod memory_types;
pub mod memory;
pub mod words;
pub mod distill;
pub mod memory_store;
pub mod paths;
pub mod sandbox;
pub mod seatbelt;
pub mod bubblewrap;
pub mod restricted_fs;
pub mod walk;
