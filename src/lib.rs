//! A small HTTP server framework: a hand-written request parser, a route
//! table whose paths declare typed query parameters, a binding and
//! validation engine for query strings, a response builder, and the
//! decisions of the server loop and its worker pool.
pub mod binding;
pub mod error;
pub mod number;
pub mod person;
pub mod query;
pub mod request;
pub mod response;
pub mod route;
pub mod router;
pub mod server;
pub mod table;
pub mod text;
pub mod url_encoding;
pub mod validation;
