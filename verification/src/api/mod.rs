//! The request handling of the HTTP service, apart from the transport.

pub mod server;
