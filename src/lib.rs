//! An in-memory document store: named collections of JSON records keyed by
//! their string `id` field, the conversion between the store and the JSON
//! document that backs it on disk, the replies to the requests on a
//! collection, and the command line of the server around it.

pub mod cli;
pub mod ids;
pub mod json;
pub mod laws;
pub mod persist;
pub mod service;
pub mod store;
