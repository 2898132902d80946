pub mod memory;
pub mod rules_engine;
pub mod guardrail;
