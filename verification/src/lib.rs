//! A command-line assistant that keeps its dialogue with an LLM as facts,
//! with the storage, session and decisions verified.
use vstd::prelude::*;

pub mod text;
pub mod fact_map;
pub mod state;
pub mod storage;
pub mod roundtrip;
pub mod laws;
pub mod json;
pub mod ai;
pub mod chat;
pub mod run;
pub mod provider;
pub mod completion;
pub mod backup;
pub mod session_laws;
pub mod files;
pub mod flow;
pub mod prompt_laws;
