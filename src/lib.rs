//! Request-handling core of a small ticket service: the session token codec,
//! the authentication guard, the ticket store and the mapping of errors to
//! client-visible responses.

pub mod error;
pub mod token;
pub mod auth;
pub mod model;
pub mod controller;
pub mod response;
pub mod hello;

pub use error::Error;
pub use token::Token;
