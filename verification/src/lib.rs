//! Read-only discovery and inspection of pi subagent sessions.
//!
//! The library holds the decisions of the session sidebar and the agent
//! inspector: which sessions are subagents of which parent, which family a
//! session belongs to, what a saved child transcript shows, and how the quit
//! prompt reacts. File access and drawing stay with the caller.
pub mod agents;
pub mod family;
pub mod history;
pub mod json;
pub mod origin;
pub mod quit;
pub mod sidebar;
pub mod text;
