//! A small static-asset web server library.
//!
//! The library holds the decision logic of the server, verified: the request
//! line grammar, the mapping from request target to file path, the content
//! type table, the exact layout of a response, and a model of the worker
//! pool's job intake. The surrounding process (sockets, files, threads) lives
//! outside the library and only hands plain values in and out.

pub mod cli;
pub mod connect;
pub mod threading;
