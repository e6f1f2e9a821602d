//! The JSON-RPC method names of the provider shim protocol.

use vstd::prelude::*;

verus! {

/// Ask a provider for its capabilities.
pub const CAPABILITIES: &'static str = "capabilities";

/// Send a chat completion request.
pub const CHAT: &'static str = "chat";

/// Send a streaming chat completion request.
pub const STREAM: &'static str = "stream";

} // verus!
