//! Verified core of a tool-first advisor: task routing, registry queries,
//! detection bookkeeping and tool-memory ranking.
pub mod advice;
pub mod config;
pub mod detect;
pub mod file_store;
pub mod mcp;
pub mod memory;
pub mod order;
pub mod registry;
pub mod resolver;
pub mod routing;
pub mod text;
