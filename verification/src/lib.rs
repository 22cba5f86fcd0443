//! Verified core of the Chaos command-line tools and model plumbing.
use vstd::prelude::*;

pub mod text;
pub mod json;
pub mod mode;
pub mod cli;
pub mod grimoire;
pub mod qwen3;
pub mod deepseek4;
pub mod trunk_quant;
pub mod run;
pub mod prompt_cache;
pub mod plan;
pub mod container;
pub mod chunk;
pub mod commands;
pub mod routing;
pub mod writer;
pub mod overrides;
pub mod runner;

verus! {
} // verus!
