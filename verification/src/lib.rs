//! A single-user record keeper for free-form notes and checklist items,
//! backed by one JSON file. This crate is the persistent entity store: the
//! in-memory collections, the mutation operations on them, and the textual
//! form that load and save exchange with the file. Reading and writing the
//! file itself is left to the program around the store.

pub mod entities;
pub mod ext;
pub mod json;
pub mod store;
