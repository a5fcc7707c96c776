//! Requests and endpoint settings shared by the HTTP-borne protocols.

use std::collections::HashMap;
use vstd::prelude::*;

verus! {

/// How the length of a request body is announced.
#[derive(Debug, Clone, Copy, PartialEq, Eq, Structural)]
pub enum BodyLength {
    /// No body follows the header.
    Absent,
    /// `Content-Length` gives the number of body bytes.
    ContentLength(u64),
    /// The body comes in chunks (`Transfer-Encoding: chunked`).
    Chunked,
}

/// A parsed HTTP request line and header, together with the bytes as received.
#[derive(Debug)]
pub struct L7Request {
    /// The request method, such as `GET`.
    pub action: String,
    /// The request path.
    pub target: String,
    /// The decoded query parameters.
    pub query_params: HashMap<String, Vec<String>>,
    /// The header bytes, up to and with the blank line, and whatever body bytes
    /// were read along with them.
    pub raw_header: Vec<u8>,
    /// How long the body is said to be.
    pub body_length: BodyLength,
}

impl L7Request {
    /// Whether two requests agree in all that framing a body leaves alone.
    pub open spec fn same_target(self, other: L7Request) -> bool {
        &&& self.action == other.action
        &&& self.target == other.target
        &&& self.query_params == other.query_params
    }
}

/// The protocol an endpoint speaks.
#[derive(Debug, Clone, Copy, PartialEq, Eq, Structural)]
pub enum L7Protocol {
    Rest,
    JsonRpc,
    Mcp,
}

/// The settings of an endpoint that inspection depends on.
#[derive(Debug, Clone, Copy, PartialEq, Eq, Structural)]
pub struct L7EndpointConfig {
    pub protocol: L7Protocol,
    pub mcp_strict_tool_names: bool,
}

} // verus!
