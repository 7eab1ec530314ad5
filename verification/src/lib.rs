//! A message-routing layer for WebSocket-style persistent connections.
//!
//! The crate decodes raw text frames into a small command protocol
//! (`@NAME #key 'value' ...`), dispatches commands to registered routes,
//! and runs named middleware layers and raw-text interceptors ahead of
//! every handler. A server keeps a registry of live connections for
//! addressed delivery; a client is supervised by a reconnect state
//! machine with a fixed backoff.

pub mod chars;
pub mod command;
pub mod ext;
pub mod interceptor;
pub mod layer;
pub mod params;
pub mod parser;
pub mod registry;
pub mod roundtrip;
pub mod routes;
pub mod session;
pub mod supervisor;
