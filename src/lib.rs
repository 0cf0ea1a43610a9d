//! Score-voting polls: a verified poll record model, a binary storage codec,
//! the vote aggregator, a durable poll store over a sled tree, and the poll
//! service that ties them together.

pub mod error;
pub mod ids;
pub mod model;
pub mod aggregate;
pub mod codec;
pub mod store;
pub mod service;
