//! Verified core of the builtin context lock and of the MCP text contract.
//!
//! The lock file pins which builtin base instructions, fragments, tools and
//! templates a session may use; the MCP text contract decides which MCP tools
//! are exposed to the model as freeform (custom) tools.
pub mod text;
pub mod lock;
pub mod json;
pub mod freeform;
pub mod lock_cmd;
