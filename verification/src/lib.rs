//! Mneme's memory layer for AI agents: typed memories with audit trails,
//! scoped access, recall within a token budget, deduplication, consolidation
//! and portable archives. Every function here carries a contract that Verus
//! proves.

use vstd::prelude::*;

pub mod access_control;
pub mod audit;
pub mod backend;
pub mod consolidation;
pub mod embedder;
pub mod float_bits;
pub mod ids;
pub mod operations;
pub mod ordering;
pub mod portability;
pub mod retrieval;
pub mod rows;
pub mod store;
pub mod text;
pub mod time;

pub use access_control::{AccessScope, Permission};
pub use audit::{AuditAction, AuditEvent};
pub use backend::AccessGrant;
pub use embedder::HashEmbedder;
pub use retrieval::{RecallOptions, RetrievedMemory, SortOrder};
pub use store::{MemoryRecord, MemoryType};
