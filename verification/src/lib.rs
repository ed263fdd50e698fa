//! Path-addressed mutation of tree-shaped event values, and the encoding
//! configuration that decides which fields of an event are serialized.

pub mod encoding;
pub mod insert;
pub mod laws;
pub mod lookup;
pub mod model;
pub mod order;
pub mod path;
pub mod render;
pub mod value;
