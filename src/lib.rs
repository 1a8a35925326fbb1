//! A gateway library for fleets of OpenAI-compatible inference backends:
//! capability kinds, a backend registry with least-connections routing,
//! request dispatch decisions, and retrieval-augmented chat orchestration.

pub mod capability;
pub mod chunk;
pub mod error;
pub mod kind;
pub mod logging;
pub mod proxy;
pub mod rag;
pub mod registry;
pub mod state;
pub mod text;
