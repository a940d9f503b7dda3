//! Configuration that the runtime reads.
//!
//! Fractional settings are carried as the bit patterns of `f64` values: the
//! library hands them on and never computes with them.

use crate::egress::EgressClass;
use vstd::prelude::*;

verus! {

/// Bit pattern of the `f64` value 0.1, the temperature of summarizing models.
pub const SUMMARY_TEMPERATURE_BITS: u64 = 0x3fb9_9999_9999_999a;

/// Gateway-wide settings of context compression.
#[derive(Debug)]
pub struct ContextCompressionConfig {
    pub enabled: bool,
    pub llm_preset: Option<String>,
    pub provider: Option<String>,
    pub model: Option<String>,
    /// Percentage of the context window at which compression starts, as `f64` bits.
    pub threshold_pct_bits: u64,
    pub recent_turns_to_keep: usize,
    pub max_summary_tokens: usize,
    pub min_turns_between_compression: u64,
    pub max_capsule_decisions: usize,
    pub max_completed_tasks: usize,
}

/// One agent's overrides of the compression settings.
#[derive(Debug)]
pub struct CompressionConfig {
    pub threshold_pct_bits: Option<u64>,
    pub recent_turns_to_keep: Option<usize>,
    pub llm_preset: Option<String>,
    pub max_capsule_decisions: Option<usize>,
    pub max_completed_tasks: Option<usize>,
}

/// A named model configuration.
#[derive(Debug)]
pub struct LlmPreset {
    pub provider: Option<String>,
    pub model: Option<String>,
    pub temperature_bits: Option<u64>,
    pub fallback_provider: Option<String>,
    pub fallback_model: Option<String>,
    pub chat_only: Option<bool>,
    pub context_window_tokens: Option<u32>,
    pub base_url: Option<String>,
    pub api_key_env: Option<String>,
    pub thinking: Option<String>,
    pub egress_class: Option<EgressClass>,
}

/// A complete model configuration.
#[derive(Debug)]
pub struct LlmConfig {
    pub provider: String,
    pub model: String,
    pub temperature_bits: u64,
    pub fallback_provider: Option<String>,
    pub fallback_model: Option<String>,
    pub chat_only: bool,
    pub context_window_tokens: Option<u32>,
    pub base_url: Option<String>,
    pub api_key_env: Option<String>,
    pub routing_preset: Option<String>,
    pub thinking: Option<String>,
    pub egress_class: Option<EgressClass>,
}

} // verus!
