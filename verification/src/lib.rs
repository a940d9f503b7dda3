//! Runtime core of an agent gateway.

pub mod active_execution_registry;
pub mod approved_exec_cache;
pub mod budget_tracker;
pub mod capsule;
pub mod causal;
pub mod checkpoint;
pub mod clock;
pub mod code_excerpts;
pub mod compression;
pub mod compression_quality;
pub mod config;
pub mod content_store;
pub mod context;
pub mod context_governor;
pub mod continuation;
pub mod crypto;
pub mod curator_journal;
pub mod digest;
pub mod disclosure;
pub mod discretion_leak;
pub mod egress;
pub mod egress_asks;
pub mod egress_boundary;
pub mod egress_events;
pub mod egress_labeler;
pub mod egress_routing;
pub mod json;
pub mod llm;
pub mod memory_recall;
pub mod order;
pub mod sealed;
pub mod text;
pub mod textmap;
