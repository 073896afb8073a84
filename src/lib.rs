//! Authenticated temperature logging: a token verifier, a store that keeps a
//! user registry and a temperature log, and the repository that ties them.
pub mod auth;
pub mod error;
pub mod repository;
pub mod rest;
pub mod store;
