//! Verified core of the Wicci shim: byte and text handling, the HTML
//! helpers used for debugging pages, the option and SQL strings, the
//! re-encoding of HTTP requests and the decoding of database rows into
//! HTTP responses.

pub mod text;
pub mod strings;
pub mod html;
pub mod options;
pub mod tinier;
pub mod response;
pub mod echo;
pub mod selftest;
