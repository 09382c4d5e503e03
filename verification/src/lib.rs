//! A small static-content HTTP server core: request-line parsing, route
//! lookup, response framing and the bookkeeping of a bounded worker pool.

pub mod handler;
pub mod pool;
pub mod request;
pub mod response;
pub mod routes;
pub mod text;

pub use pool::ThreadPool;
pub use request::Request;
pub use request::RequestError;
pub use routes::App;
