//! Parts of a Matrix homeserver.

pub mod collections;
pub mod content;
pub mod error;
pub mod event;
pub mod identifiers;
pub mod incoming;
pub mod map;
pub mod resolution;
pub mod samples;
pub mod services;
pub mod store;
pub mod text;
pub mod unix_socket;
