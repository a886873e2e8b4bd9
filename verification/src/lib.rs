//! A verified core for a small HTTP/1.1 server: wire-format parsing and
//! serialization, routing, middleware composition, WebSocket framing, and the
//! bookkeeping of a concurrent dispatch engine.
//!
//! All I/O (sockets, threads, clocks) lives outside this crate; the functions
//! here work on plain byte buffers and values, so every decision the server
//! makes is stated in a contract and proved.

pub mod builder;
pub mod bytes;
pub mod config;
pub mod decimal;
pub mod engine;
pub mod fast_buffer;
pub mod fast_response;
pub mod fast_parser;
pub mod frame;
pub mod handshake;
pub mod method;
pub mod middleware;
pub mod parser;
pub mod response;
pub mod router;
pub mod session;
pub mod status;

pub use builder::ServerBuilder;
pub use config::{ThreadPoolConfig, SystemInfo};
pub use engine::{ConcurrentQueue, PoolStats, PoolSnapshot};
pub use fast_buffer::{FastBuffer, BufferPool};
pub use fast_response::FastResponse;
pub use frame::{Frame, OpCode, FrameError};
pub use method::Method;
pub use middleware::{Middleware, Chain, Handler, LoggingMiddleware, RecoveryMiddleware,
    SecurityHeadersMiddleware, RateLimitMiddleware, AppendHeaderMiddleware};
pub use parser::{Request, ParseError};
pub use response::Response;
pub use router::Router;
pub use status::Status;
