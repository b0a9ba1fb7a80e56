//! Core of a collaborative-investigation backend: credential handling,
//! membership-scoped access control, the entity/tag/link graph, and
//! investigation lifecycle with presence tracking.
//!
//! The relational state lives in [`store::Store`]; every operation is a
//! function over that state with a full functional contract. Calls into
//! outside crates (password hashing, token signing, random identifiers,
//! date parsing) go through small trusted wrappers.

pub mod access;
pub mod accounts;
pub mod auth;
pub mod codegen;
pub mod entities;
pub mod errors;
pub mod ids;
pub mod investigations;
pub mod links;
pub mod records;
pub mod requests;
pub mod responses;
pub mod store;
pub mod text;
