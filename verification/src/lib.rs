//! A verified core for a Model Context Protocol (MCP) SDK.
//!
//! MCP is a JSON-RPC 2.0 vocabulary that lets a client discover and invoke
//! tools, resources and prompts exposed by a server.  This crate holds the
//! protocol's pure core: the JSON value model and wire codec, the typed
//! message records, the client session state (identifier allocation and
//! request/response correlation), the server dispatch engine, the tool
//! registry with schema derivation, and the session-group aggregation.
//!
//! Transports, task runtimes and user handlers live outside this crate; they
//! drive the state machines defined here and perform the I/O the core
//! deliberately leaves at its edge.

pub mod client;
pub mod error;
pub mod group;
pub mod codec;
pub mod diagnostics;
pub mod json;
pub mod parse;
pub mod schema;
pub mod server;
pub mod types;

pub use client::Client;
pub use error::Error;
pub use group::ClientSessionGroup;
pub use json::Json;
pub use server::{DispatchAction, Server, ServerSession};
pub use types::{
    BlobResourceContents, CallToolResult, Content, GetPromptResult, ListPromptsResult,
    ListToolsChangedParams, Notification, Prompt, PromptArgument, PromptMessage,
    ReadResourceResult, Resource, ResourceContents, TextResourceContents, Tool, ToolAnnotations,
};

use vstd::prelude::*;

verus! {

/// The protocol version this crate speaks.
pub const LATEST_PROTOCOL_VERSION: &'static str = "2024-11-05";

} // verus!
