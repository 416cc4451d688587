//! A debugging and diagnostics middleware for gRPC servers: schema-less
//! protobuf inspection, gRPC frame parsing, hex dumps, connection lifecycle
//! counters, and the configuration of the request/response logging.
pub mod body;
pub mod connection;
pub mod framing;
pub mod hexdump;
pub mod inspect;
pub mod layer;
pub mod otel;
pub mod render;
pub mod service;
pub mod text;
pub mod wire;

pub use connection::{ConnectionMetrics, ConnectionTrackerLayer};
pub use layer::{DebugConfig, DebugLayer};
pub use service::DebugService;
