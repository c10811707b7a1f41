//! A minimal HTTP/1.x request-handling core.
//!
//! The library holds the verified logic of a small web server: the request
//! parser with its size-bounding contract, the per-connection dispatcher
//! that validates and routes a parsed request, the response composer, and
//! the FIFO job queue that models the worker pool's shared state.  Sockets,
//! files and threads live outside the library; they hand bytes in and take
//! bytes back.

pub mod acceptor;
pub mod config;
pub mod dispatch;
pub mod parser;
pub mod pool;
pub mod request;
pub mod response;
pub mod text;
