//! A local-first memory layer for agents: facts, scopes, vectors, filters and
//! history, with every rule stated as a contract.

pub mod calendar;
pub mod cli;
pub mod embedding;
pub mod entity;
pub mod error;
pub mod filter;
pub mod history;
pub mod json;
pub mod llm;
pub mod memory;
pub mod number;
pub mod ollama;
pub mod paths;
pub mod payload;
pub mod rank;
pub mod remote;
pub mod reranker;
pub mod scoring;
pub mod secret;
pub mod settings;
pub mod snapshot;
pub mod stores;
pub mod text;
pub mod textmap;
pub mod tools;
pub mod vector_store;
pub mod wire;

pub use error::CoreError;
