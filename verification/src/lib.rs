//! Ordered maps over totally ordered keys, with snapshot and draining iteration.

pub mod drain;
pub mod entries;
pub mod keys;
pub mod laws;
pub mod lexical;
pub mod map;
pub mod order;
pub mod ordered;
pub mod pull;
pub mod snapshot;
pub mod typed_maps;
