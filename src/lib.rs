//! A small HTTP server core: request-line parsing, routing, sandboxed path
//! resolution, content-type mapping and response framing, plus a template
//! processing hook.
pub mod handler;
pub mod paths;
pub mod request;
pub mod response;
pub mod ssi_processor;
