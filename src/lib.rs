//! A small blocking HTTP/1.1 server core: request parsing, response building and
//! serialisation, routing, and the job queue that a worker pool runs on, with their
//! contracts proved.

pub mod status;
pub mod headers;
pub mod response;
pub mod request;
pub mod router;
pub mod pool;
