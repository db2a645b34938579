//! A small backend fabric: a document store addressed by dotted key paths,
//! and a routing hub with its registry of backend connections.
//!
//! The library decides and keeps the books; it touches no socket, file, task
//! or lock. Where an operation needs one, the library returns the step to
//! perform and takes its outcome back as a plain value. JSON text is read and
//! written by `serde_json` and passwords are hashed by `argon2`: what the
//! library assumes of them is stated where they are called.

pub mod managers;
