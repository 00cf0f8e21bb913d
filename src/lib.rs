//! A programmable mock HTTP server core: composable request matchers, a
//! registration table of global and scoped rules, a router that picks the
//! most recent matching rule, and call-count expectations.

pub mod auth;
pub mod bytes;
pub mod laws;
pub mod matcher;
pub mod request;
pub mod square;
pub mod table;
