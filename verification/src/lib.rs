//! Verified rules for inspecting JSON-RPC traffic, discovering provider
//! credentials and bootstrapping the gateway's TLS files.

pub mod accept;
pub mod accept_laws;
pub mod body_laws;
pub mod bytes;
pub mod certgen;
pub mod chunk_outcomes;
pub mod chunked;
pub mod chunked_laws;
pub mod discovery;
pub mod discovery_laws;
pub mod framing;
pub mod http;
pub mod http_error;
pub mod http_laws;
pub mod install;
pub mod install_laws;
pub mod json;
pub mod jsonrpc;
pub mod jsonrpc_laws;
pub mod l7;
pub mod local_pki;
pub mod mcp;
pub mod message_laws;
pub mod paths;
pub mod pki_laws;
pub mod string_map;
pub mod text;
pub mod text_laws;
pub mod utf8;
