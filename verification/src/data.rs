//! The fixed-layout pieces of a message: what a pointer, a handle reference
//! and the headers of structs and arrays hold.

use std::marker::PhantomData;
use vstd::prelude::*;

verus! {

/// The size in bytes of a union cell.
pub const UNION_DATA_SIZE: usize = 16;

/// The size in bytes of what a union cell holds after its size and tag.
pub const UNION_INNER_SIZE: usize = 8;

/// A relative pointer. `offset` counts the bytes from the place of the
/// pointer itself to the start of what it points to; 0 is the null pointer.
#[derive(Debug)]
pub struct Pointer<T> {
    pub offset: u64,
    pub _phantom: PhantomData<T>,
}

impl<T> Pointer<T> {
    /// The pointer with the given offset.
    pub fn new(offset: u64) -> (pointer: Self)
        ensures
            pointer.offset == offset,
    {
        Pointer { offset, _phantom: PhantomData }
    }

    /// Whether this is the null pointer.
    pub fn is_null(&self) -> (null: bool)
        ensures
            null == (self.offset == 0),
    {
        self.offset == 0
    }

    /// The place that a pointer standing at `location` points to, unless the
    /// pointer is null or the place lies beyond what 64 bits can address.
    pub fn target(&self, location: u64) -> (target: Option<u64>)
        ensures
            target.is_some() <==> self.offset != 0 && location + self.offset <= u64::MAX,
            target.is_some() ==> target.unwrap() == location + self.offset,
    {
        if self.offset == 0 || self.offset > u64::MAX - location {
            None
        } else {
            Some(location + self.offset)
        }
    }
}

impl<T> Clone for Pointer<T> {
    fn clone(&self) -> (copy: Self)
        ensures
            copy.offset == self.offset,
    {
        Pointer { offset: self.offset, _phantom: PhantomData }
    }
}

impl<T> Copy for Pointer<T> {

}

/// A reference to a handle of the message: an index into the handle vector,
/// or `u32::MAX` for the null handle.
#[derive(Clone, Copy, Debug, PartialEq, Eq, Structural)]
pub struct HandleRef {
    pub index: u32,
}

impl HandleRef {
    /// The reference to no handle.
    pub fn null() -> (handle: Self)
        ensures
            handle.index == u32::MAX,
    {
        HandleRef { index: u32::MAX }
    }

    /// Whether this refers to no handle.
    pub fn is_null(&self) -> (null: bool)
        ensures
            null == (self.index == u32::MAX),
    {
        self.index == u32::MAX
    }
}

/// A reference to an interface: the handle of its message pipe, and the
/// version of the interface. The interface is null where the handle is.
#[derive(Clone, Copy, Debug, PartialEq, Eq, Structural)]
pub struct InterfaceData {
    pub handle: HandleRef,
    pub version: u32,
}

impl InterfaceData {
    /// The reference to no interface: a null handle and version 0.
    pub fn null() -> (interface: Self)
        ensures
            interface.handle.index == u32::MAX,
            interface.version == 0,
    {
        InterfaceData { handle: HandleRef { index: u32::MAX }, version: 0 }
    }

    /// Whether this refers to no interface.
    pub fn is_null(&self) -> (null: bool)
        ensures
            null == (self.handle.index == u32::MAX),
    {
        self.handle.index == u32::MAX
    }
}

/// The header of a struct: the size in bytes of its region, the header
/// included, and the version of the struct.
#[derive(Clone, Copy, Debug, PartialEq, Eq, Structural)]
pub struct StructHeader {
    pub size: u32,
    pub version: u32,
}

/// The header of an array: the size in bytes of its region, the header
/// included, and the number of elements.
#[derive(Clone, Copy, Debug, PartialEq, Eq, Structural)]
pub struct ArrayHeader {
    pub size: u32,
    pub num_elems: u32,
}

impl ArrayHeader {
    /// The size in bytes of the region of an array of `num_elems` elements
    /// of `element_bits` bits each: the header, and the elements rounded up
    /// to whole bytes.
    pub open spec fn spec_size_for(num_elems: nat, element_bits: nat) -> nat {
        8 + (num_elems * element_bits + 7) / 8
    }
}

/// An array as it lies in a message: its header and its elements.
#[derive(Debug)]
pub struct Array<T> {
    pub header: ArrayHeader,
    pub elems: Vec<T>,
}

/// A map as it lies in a message: a struct of two pointers, the first to the
/// array of the keys and the second to the array of the values.
#[derive(Debug)]
pub struct MapData<K, V> {
    pub header: StructHeader,
    pub keys: Pointer<Array<K>>,
    pub vals: Pointer<Array<V>>,
}

} // verus!
