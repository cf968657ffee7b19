//! Request-handling core of a small HTTP/1.1 origin server.
//!
//! The library covers the request pipeline: path normalization, the HTTP
//! header map with its name normalization, a CGI/1.1 document-header parser,
//! the FastCGI 1.1 record codec, the prefix router with method dispatch, the
//! chunked response writer with its fresh/streaming discipline, and the
//! decision logic of the FastCGI driver. Socket handling, file service and
//! configuration loading live outside the library and hand it plain values.

pub mod cgi;
pub mod config;
pub mod driver;
pub mod errors;
pub mod fastcgi;
pub mod filesystem;
pub mod headers;
pub mod log_util;
pub mod parser;
pub mod request;
pub mod response;
pub mod router;
pub mod serializer;
