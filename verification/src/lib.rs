//! Persistent semantic memory: the decisions, renderings and rules behind it.

pub mod adr;
pub mod bootstrap;
pub mod clock;
pub mod closeout;
pub mod commands;
pub mod compressor;
pub mod consolidator;
pub mod consolidator2;
pub mod floats;
pub mod git_review;
pub mod graph_diff;
pub mod hash;
pub mod json;
pub mod lists;
pub mod mcp;
pub mod memory;
pub mod meta;
pub mod model;
pub mod numbers;
pub mod order;
pub mod output_filter;
pub mod paths;
pub mod prefs;
pub mod rates;
pub mod reasoner;
pub mod recall;
pub mod session_store;
pub mod source;
pub mod status;
pub mod text;
