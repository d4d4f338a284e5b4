//! Bindings for the Mojo wire format.
//!
//! A message is a byte buffer paired with an ordered vector of owned handles.
//! The buffer is a sequence of 8-byte aligned regions; a region refers to a
//! later one through a relative pointer, and to a handle through its index in
//! the handle vector.

pub mod array;
pub mod bits;
pub mod cursor;
pub mod data;
pub mod decoding;
pub mod encoding;
pub mod handles;
pub mod interface;
pub mod laws;
pub mod map;
pub mod message;
pub mod mojom;
pub mod nullable;
pub mod numeric;
pub mod primitives;
pub mod string;
pub mod system;
pub mod union_laws;

