//! The core of a small multi-threaded web server, as pure decisions: a
//! pool of workers around a job queue, the accept loop that feeds it, the
//! shutdown that drains it, and the wire format of the two pages it serves.
//!
//! Nothing here touches a socket, a file or a thread. The caller performs
//! those and tells the library what happened; the library keeps the state
//! and says what to do next.

pub mod decimal;
pub mod http;
pub mod model;
pub mod pool;
pub mod queue;
pub mod server;
pub mod worker;

pub use pool::{PoolCreationError, ThreadPool};
pub use server::WebServer;
