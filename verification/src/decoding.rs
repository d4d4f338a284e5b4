//! The reading side: the cursor that reads one region, and the decoder that
//! claims regions and handles of a received message.

use crate::bits::{align_bytes, Bits};
use crate::cursor::{lemma_align_bits, zeros, Cursor};
use crate::data::{HandleRef, InterfaceData};
use crate::encoding::{Context, DataHeader, DataHeaderValue};
use crate::mojom::MojomEncodable;
use crate::numeric::MojomNumeric;
use crate::system::{CastHandle, UntypedHandle};
use vstd::prelude::*;
use vstd::slice::slice_subrange;

verus! {

/// Why a message was refused.
#[derive(Clone, Copy, Debug, PartialEq, Eq, Structural)]
pub enum ValidationError {
    /// A pointer leads to a place that is not a multiple of 8, lies outside
    /// the message, or lies before or in a region that was claimed already.
    IllegalPointer,
    /// A pointer that must lead somewhere is null.
    UnexpectedNullPointer,
    /// A handle index is out of range, the handle was claimed already, or it
    /// is of another kind than the one asked for.
    IllegalHandle,
    /// The size and version of a struct are not a pair of its version table.
    UnexpectedStructHeader,
    /// The size of an array does not fit the number of its elements, or the
    /// number of elements is not the one that the type fixes.
    UnexpectedArrayHeader,
    /// The keys and the values of a map differ in number.
    DifferentSizedArraysInMap,
}

/// The cursor that reads one region.
pub struct DecodingState<'a> {
    /// The bytes of the region.
    pub data: &'a [u8],
    /// The offset of the region in the message.
    pub global_offset: usize,
    /// The byte under the cursor.
    pub offset: usize,
    /// The bit under the cursor, within that byte.
    pub bit_offset: usize,
    /// The length of the message.
    pub limit: usize,
}

impl<'a> View for DecodingState<'a> {
    type V = Cursor;

    open spec fn view(&self) -> Cursor {
        Cursor {
            data: self.data@,
            base: self.global_offset as nat,
            pos: (8 * self.offset + self.bit_offset) as nat,
        }
    }
}

/// The size that the header of a region states: its first four bytes.
pub open spec fn stated_size(data: Seq<u8>) -> u32 {
    u32::spec_from_wire_bytes(data.subrange(0, 4))
}

/// The second word of the header of a region.
pub open spec fn stated_word(data: Seq<u8>) -> u32 {
    u32::spec_from_wire_bytes(data.subrange(4, 8))
}

/// What reading a pointer under `cursor` gives, in a message of `limit`
/// bytes: nothing for the null pointer, else the place it leads to, which is
/// the place of the pointer plus its value; a place outside the message is
/// refused.
pub open spec fn spec_decode_pointer(cursor: Cursor, limit: nat) -> Result<
    Option<u64>,
    ValidationError,
> {
    let delta = u64::spec_from_wire_bytes(cursor.peek(8, 8));
    if delta == 0 {
        Ok(None)
    } else if cursor.location(8) + delta >= limit {
        Err(ValidationError::IllegalPointer)
    } else {
        Ok(Some((cursor.location(8) + delta) as u64))
    }
}

/// Whether `versions` holds the pair of `version` and `size`.
pub open spec fn known_version(versions: Seq<(u32, u32)>, version: u32, size: u32) -> bool {
    exists|i: int| 0 <= i < versions.len() && #[trigger] versions[i] == (version, size)
}

impl<'a> DecodingState<'a> {
    /// The cursor lies in its region, the region lies in the message, and
    /// its header states its size.
    pub open spec fn wf(&self) -> bool {
        &&& self.bit_offset < 8
        &&& self@.wf()
        &&& self.global_offset + self.data@.len() <= self.limit
        &&& stated_size(self.data@) == self.data@.len()
    }

    /// Whether this is the state `other` but for the place of the cursor.
    pub open spec fn same_region(&self, other: &DecodingState<'a>) -> bool {
        &&& self.data@ == other.data@
        &&& self.global_offset == other.global_offset
        &&& self.limit == other.limit
    }

    /// The state that reads the region `data`, which starts at `offset` in a
    /// message of `limit` bytes.
    pub fn new(data: &'a [u8], offset: usize, limit: usize) -> (state: DecodingState<'a>)
        ensures
            state.data@ == data@,
            state.global_offset == offset,
            state.limit == limit,
            state@.pos == 0,
            state.bit_offset == 0,
    {
        DecodingState { data, global_offset: offset, offset: 0, bit_offset: 0, limit }
    }

    /// The offset of the region in the message.
    pub fn global_offset(&self) -> (offset: usize)
        ensures
            offset == self@.base,
    {
        self.global_offset
    }

    /// Moves the cursor up to the next whole byte.
    pub fn align_to_byte(&mut self)
        requires
            old(self).wf(),
        ensures
            final(self).wf(),
            final(self).same_region(old(self)),
            final(self)@ == old(self)@.aligned(8),
            final(self).bit_offset == 0,
    {
        if self.bit_offset > 0 {
            self.offset = self.offset + 1;
            self.bit_offset = 0;
        }
    }

    /// Moves the cursor up to the next multiple of `bytes` bytes from the
    /// start of the region.
    pub fn align_to_bytes(&mut self, bytes: usize)
        requires
            old(self).wf(),
            bytes > 0,
            old(self)@.fits(8 * bytes as nat, 0),
        ensures
            final(self).wf(),
            final(self).same_region(old(self)),
            final(self)@ == old(self)@.aligned(8 * bytes as nat),
            final(self).bit_offset == 0,
            final(self).offset == old(self)@.at(bytes as nat),
    {
        proof {
            lemma_align_bits(self.offset as nat, self.bit_offset as nat, bytes as nat);
        }
        self.align_to_byte();
        self.offset = align_bytes(self.offset, bytes);
    }

    /// The `n` bytes from the next byte aligned to `width` bytes; the cursor
    /// stays before them, aligned.
    fn peek(&mut self, width: usize, n: usize) -> (bytes: &'a [u8])
        requires
            old(self).wf(),
            width > 0,
            old(self)@.fits(8 * width as nat, 8 * n as nat),
        ensures
            final(self).wf(),
            final(self).same_region(old(self)),
            final(self)@ == old(self)@.aligned(8 * width as nat),
            final(self).bit_offset == 0,
            final(self).offset == old(self)@.at(width as nat),
            final(self).offset + n <= final(self).data@.len(),
            bytes@ == old(self)@.peek(width as nat, n as nat),
    {
        proof {
            lemma_align_bits(self.offset as nat, self.bit_offset as nat, width as nat);
        }
        self.align_to_bytes(width);
        slice_subrange(self.data, self.offset, self.offset + n)
    }

    /// Reads an integer: little-endian bytes, aligned to their number.
    pub fn decode<T: MojomNumeric>(&mut self) -> (value: T)
        requires
            old(self).wf(),
            old(self)@.fits(8 * T::spec_width(), 8 * T::spec_width()),
        ensures
            final(self).wf(),
            final(self).same_region(old(self)),
            final(self)@ == old(self)@.skip(T::spec_width(), T::spec_width()),
            value == T::spec_from_wire_bytes(old(self)@.peek(T::spec_width(), T::spec_width())),
    {
        let width = T::width();
        let bytes = self.peek(width, width);
        self.offset = self.offset + width;
        T::from_wire_bytes(bytes)
    }

    /// Reads `n` bytes as they are, from the next whole byte on.
    pub fn decode_bytes(&mut self, n: usize) -> (bytes: &'a [u8])
        requires
            old(self).wf(),
            old(self)@.fits(8, 8 * n as nat),
        ensures
            final(self).wf(),
            final(self).same_region(old(self)),
            final(self)@ == old(self)@.skip(1, n as nat),
            bytes@ == old(self)@.peek(1, n as nat),
    {
        let bytes = self.peek(1, n);
        self.offset = self.offset + n;
        bytes
    }

    /// Reads a reference to an interface: the index of its handle, then its
    /// version, from the next multiple of 4 bytes on.
    pub fn decode_interface_data(&mut self) -> (data: InterfaceData)
        requires
            old(self).wf(),
            old(self)@.fits(32, 64),
        ensures
            final(self).wf(),
            final(self).same_region(old(self)),
            final(self)@ == old(self)@.skip(4, 8),
            data.handle.index == u32::spec_from_wire_bytes(old(self)@.peek(4, 4)),
            data.version == u32::spec_from_wire_bytes(old(self)@.skip(4, 4).peek(4, 4)),
    {
        let bytes = self.peek(4, 8);
        self.offset = self.offset + 8;
        let index = u32::from_wire_bytes(slice_subrange(bytes, 0, 4));
        let version = u32::from_wire_bytes(slice_subrange(bytes, 4, 8));
        proof {
            let start = old(self)@;
            crate::cursor::lemma_at(start, 4);
            crate::bits::lemma_align_up_fixed(start.skip(4, 4).pos, 32);
            assert(start.skip(4, 4).at(4) == start.at(4) + 4);
            assert(bytes@.subrange(0, 4) =~= start.peek(4, 4));
            assert(bytes@.subrange(4, 8) =~= start.skip(4, 4).peek(4, 4));
        }
        InterfaceData { handle: HandleRef { index }, version }
    }

    /// Reads the bit under the cursor.
    pub fn decode_bool(&mut self) -> (value: bool)
        requires
            old(self).wf(),
            old(self)@.fits(1, 1),
        ensures
            final(self).wf(),
            final(self).same_region(old(self)),
            final(self)@ == old(self)@.skip_bit(),
            value == old(self)@.peek_bit(),
    {
        let byte = self.data[self.offset];
        let k = self.bit_offset as u8;
        let value = (byte >> k) & 1u8 == 1u8;
        if self.bit_offset == 7 {
            self.offset = self.offset + 1;
            self.bit_offset = 0;
        } else {
            self.bit_offset = self.bit_offset + 1;
        }
        value
    }

    /// Reads a pointer, and returns the place in the message that it leads
    /// to, or nothing for the null pointer. A pointer that leads out of the
    /// message is refused. The cursor moves behind the pointer in any case.
    pub fn decode_pointer(&mut self) -> (target: Result<Option<u64>, ValidationError>)
        requires
            old(self).wf(),
            old(self)@.fits(64, 64),
        ensures
            final(self).wf(),
            final(self).same_region(old(self)),
            final(self)@ == old(self)@.skip(8, 8),
            target == spec_decode_pointer(old(self)@, old(self).limit as nat),
    {
        let bytes = self.peek(8, 8);
        let location = self.global_offset + self.offset;
        self.offset = self.offset + 8;
        let delta = u64::from_wire_bytes(bytes);
        if delta == 0 {
            Ok(None)
        } else if delta >= (self.limit - location) as u64 {
            Err(ValidationError::IllegalPointer)
        } else {
            Ok(Some(location as u64 + delta))
        }
    }

    /// Reads the header of a struct at the start of its region, and accepts
    /// it where `versions` holds the pair of its version and its size.
    pub fn decode_struct_header(&mut self, versions: &[(u32, u32)]) -> (header: Result<
        DataHeader,
        ValidationError,
    >)
        requires
            old(self).wf(),
            old(self)@.pos == 0,
        ensures
            final(self).wf(),
            final(self).same_region(old(self)),
            final(self)@.pos == 64,
            match header {
                Ok(h) => {
                    &&& known_version(
                        versions@,
                        stated_word(old(self)@.data),
                        stated_size(old(self)@.data),
                    )
                    &&& h.size == old(self)@.data.len()
                    &&& h.data == DataHeaderValue::Version(stated_word(old(self)@.data))
                },
                Err(e) => {
                    &&& e == ValidationError::UnexpectedStructHeader
                    &&& !known_version(
                        versions@,
                        stated_word(old(self)@.data),
                        stated_size(old(self)@.data),
                    )
                },
            },
    {
        let size: u32 = self.decode::<u32>();
        let version: u32 = self.decode::<u32>();
        assert(old(self)@.peek(4, 4) == old(self)@.data.subrange(0, 4));
        assert(old(self)@.skip(4, 4).peek(4, 4) == old(self)@.data.subrange(4, 8));
        let mut i: usize = 0;
        let n = versions.len();
        let mut found = false;
        while i < n
            invariant
                n == versions@.len(),
                i <= n,
                found == (exists|j: int| 0 <= j < i && #[trigger] versions@[j] == (version, size)),
            decreases n - i,
        {
            let entry = versions[i];
            if entry.0 == version && entry.1 == size {
                found = true;
            }
            i = i + 1;
        }
        if found {
            Ok(DataHeader::new(size as usize, DataHeaderValue::Version(version)))
        } else {
            Err(ValidationError::UnexpectedStructHeader)
        }
    }

    /// Reads the header of an array of elements of type `T` at the start of
    /// its region, and accepts it where the size it states is that of the
    /// header and of as many elements as it states, each as it is embedded,
    /// rounded up to whole bytes.
    pub fn decode_array_header<T: MojomEncodable>(&mut self) -> (header: Result<
        DataHeader,
        ValidationError,
    >)
        requires
            old(self).wf(),
            old(self)@.pos == 0,
        ensures
            final(self).wf(),
            final(self).same_region(old(self)),
            final(self)@.pos == 64,
            match header {
                Ok(h) => {
                    &&& stated_size(old(self)@.data) == crate::data::ArrayHeader::spec_size_for(
                        stated_word(old(self)@.data) as nat,
                        T::spec_embed_size(false),
                    )
                    &&& h.size == old(self)@.data.len()
                    &&& h.data == DataHeaderValue::Elements(stated_word(old(self)@.data))
                },
                Err(e) => {
                    &&& e == ValidationError::UnexpectedArrayHeader
                    &&& stated_size(old(self)@.data) != crate::data::ArrayHeader::spec_size_for(
                        stated_word(old(self)@.data) as nat,
                        T::spec_embed_size(false),
                    )
                },
            },
    {
        let bits = T::embed_size(&Context::default());
        self.decode_array_header_of(bits)
    }

    /// Reads the header of an array at the start of its region, and accepts
    /// it where the size it states is that of the header and of as many
    /// elements of `element_bits` bits as it states, rounded up to whole
    /// bytes.
    fn decode_array_header_of(&mut self, element_bits: Bits) -> (header: Result<
        DataHeader,
        ValidationError,
    >)
        requires
            old(self).wf(),
            old(self)@.pos == 0,
        ensures
            final(self).wf(),
            final(self).same_region(old(self)),
            final(self)@.pos == 64,
            match header {
                Ok(h) => {
                    &&& stated_size(old(self)@.data) == crate::data::ArrayHeader::spec_size_for(
                        stated_word(old(self)@.data) as nat,
                        element_bits.0 as nat,
                    )
                    &&& h.size == old(self)@.data.len()
                    &&& h.data == DataHeaderValue::Elements(stated_word(old(self)@.data))
                },
                Err(e) => {
                    &&& e == ValidationError::UnexpectedArrayHeader
                    &&& stated_size(old(self)@.data) != crate::data::ArrayHeader::spec_size_for(
                        stated_word(old(self)@.data) as nat,
                        element_bits.0 as nat,
                    )
                },
            },
    {
        let size: u32 = self.decode::<u32>();
        let elems: u32 = self.decode::<u32>();
        assert(old(self)@.peek(4, 4) == old(self)@.data.subrange(0, 4));
        assert(old(self)@.skip(4, 4).peek(4, 4) == old(self)@.data.subrange(4, 8));
        assert(size == stated_size(old(self)@.data));
        assert(elems == stated_word(old(self)@.data));
        assert((elems as nat) * (element_bits.0 as nat) <= 0x1_0000_0000 * 0x1_0000_0000_0000_0000)
            by (nonlinear_arith)
            requires
                elems <= 0xFFFF_FFFF,
                element_bits.0 <= 0xFFFF_FFFF_FFFF_FFFF,
        ;
        let bits: u128 = (elems as u128) * (element_bits.0 as u128);
        let bytes: u128 = (bits + 7) / 8;
        if size >= 8 && (size - 8) as u128 == bytes {
            Ok(DataHeader::new(size as usize, DataHeaderValue::Elements(elems)))
        } else {
            Err(ValidationError::UnexpectedArrayHeader)
        }
    }

    /// Moves past a null pointer, if one stands under the cursor, and says
    /// whether it did.
    pub fn skip_if_null_pointer(&mut self) -> (skipped: bool)
        requires
            old(self).wf(),
            old(self)@.fits(64, 64),
        ensures
            final(self).wf(),
            final(self).same_region(old(self)),
            skipped == (u64::spec_from_wire_bytes(old(self)@.peek(8, 8)) == 0),
            final(self)@ == if skipped {
                old(self)@.skip(8, 8)
            } else {
                old(self)@.aligned(64)
            },
    {
        let bytes = self.peek(8, 8);
        let null = u64::from_wire_bytes(bytes) == 0;
        if null {
            self.offset = self.offset + 8;
        }
        null
    }

    /// Moves past a null union, if one stands under the cursor, and says
    /// whether it did.
    pub fn skip_if_null_union(&mut self) -> (skipped: bool)
        requires
            old(self).wf(),
            old(self)@.fits(64, 128),
        ensures
            final(self).wf(),
            final(self).same_region(old(self)),
            skipped == (old(self)@.peek(8, 16) == zeros(16)),
            final(self)@ == if skipped {
                old(self)@.skip(8, 16)
            } else {
                old(self)@.aligned(64)
            },
    {
        let bytes = self.peek(8, 16);
        let mut null = true;
        let mut i: usize = 0;
        while i < 16
            invariant
                i <= 16,
                bytes@.len() == 16,
                null == (forall|j: int| 0 <= j < i ==> bytes@[j] == 0),
            decreases 16 - i,
        {
            if bytes[i] != 0 {
                null = false;
            }
            i = i + 1;
        }
        proof {
            if null {
                assert(bytes@ =~= zeros(16));
            } else {
                let j = choose|j: int| 0 <= j < 16 && bytes@[j] != 0;
                assert(zeros(16)[j] == 0);
            }
        }
        if null {
            self.offset = self.offset + 16;
        }
        null
    }

    /// Moves past a null handle, if one stands under the cursor, and says
    /// whether it did.
    pub fn skip_if_null_handle(&mut self) -> (skipped: bool)
        requires
            old(self).wf(),
            old(self)@.fits(32, 32),
        ensures
            final(self).wf(),
            final(self).same_region(old(self)),
            skipped == (u32::spec_from_wire_bytes(old(self)@.peek(4, 4)) == u32::MAX),
            final(self)@ == if skipped {
                old(self)@.skip(4, 4)
            } else {
                old(self)@.aligned(32)
            },
    {
        let bytes = self.peek(4, 4);
        let null = u32::from_wire_bytes(bytes) == u32::MAX;
        if null {
            self.offset = self.offset + 4;
        }
        null
    }

    /// Moves past a null interface, if one stands under the cursor, and says
    /// whether it did. An interface is null where its handle is.
    pub fn skip_if_null_interface(&mut self) -> (skipped: bool)
        requires
            old(self).wf(),
            old(self)@.fits(32, 64),
        ensures
            final(self).wf(),
            final(self).same_region(old(self)),
            skipped == (u32::spec_from_wire_bytes(old(self)@.peek(4, 4)) == u32::MAX),
            final(self)@ == if skipped {
                old(self)@.skip(4, 8)
            } else {
                old(self)@.aligned(32)
            },
    {
        let bytes = self.peek(4, 8);
        let handle = slice_subrange(bytes, 0, 4);
        assert(handle@ == old(self)@.peek(4, 4));
        let null = u32::from_wire_bytes(handle) == u32::MAX;
        if null {
            self.offset = self.offset + 8;
        }
        null
    }
}

/// The model of a decoder: the message, the end of the region claimed last,
/// the cursors of the regions claimed so far, and the handles of the message,
/// each until it is claimed.
#[verifier::ext_equal]
pub struct DecoderView {
    pub buffer: Seq<u8>,
    pub top: nat,
    pub states: Seq<Cursor>,
    pub handles: Seq<Option<UntypedHandle>>,
}

impl DecoderView {
    /// The size that the header at `offset` states.
    pub open spec fn size_at(self, offset: nat) -> nat {
        stated_size(self.buffer.subrange(offset as int, (offset + 8) as int)) as nat
    }

    /// Whether the region at `offset` cannot be claimed: `offset` is no
    /// multiple of 8, or lies below the end of the region claimed last, or
    /// the region does not hold its header, or does not lie in the message.
    pub open spec fn claim_refused(self, offset: nat) -> bool {
        ||| offset % 8 != 0
        ||| offset < self.top
        ||| offset + 8 > self.buffer.len()
        ||| self.size_at(offset) < 8
        ||| offset + self.size_at(offset) > self.buffer.len()
    }

    /// The decoder after it claimed the region at `offset`: the region is as
    /// long as its header states, and its cursor stands at its start.
    pub open spec fn claimed(self, offset: nat) -> DecoderView {
        DecoderView {
            top: offset + self.size_at(offset),
            states: self.states.push(
                Cursor {
                    data: self.buffer.subrange(
                        offset as int,
                        (offset + self.size_at(offset)) as int,
                    ),
                    base: offset,
                    pos: 0,
                },
            ),
            ..self
        }
    }

    /// The decoder with the cursor of region `id` replaced.
    pub open spec fn with_state(self, id: int, cursor: Cursor) -> DecoderView {
        DecoderView { states: self.states.update(id, cursor), ..self }
    }

    /// Whether handle `index` cannot be claimed as a handle of type `T`: the
    /// index is out of range, the handle was claimed before, or `T` does not
    /// accept its kind.
    pub open spec fn handle_refused<T: CastHandle>(self, index: nat) -> bool {
        ||| index >= self.handles.len()
        ||| self.handles[index as int].is_none()
        ||| !T::spec_accepts(self.handles[index as int].unwrap().kind)
    }

    /// The decoder after handle `index` was claimed.
    pub open spec fn without_handle(self, index: nat) -> DecoderView {
        DecoderView { handles: self.handles.update(index as int, None), ..self }
    }

    /// Whether `context` is that of a region this decoder claimed.
    pub open spec fn has(self, context: Context) -> bool {
        context.id < self.states.len()
    }

    /// The cursor of the region of `context`.
    pub open spec fn state(self, context: Context) -> Cursor {
        self.states[context.id as int]
    }
}

/// The handles that were not claimed, in their order.
pub open spec fn spec_unclaimed(handles: Seq<Option<UntypedHandle>>) -> Seq<UntypedHandle> {
    handles.filter(|h: Option<UntypedHandle>| h.is_some()).map_values(
        |h: Option<UntypedHandle>| h.unwrap(),
    )
}

/// Claims the regions and the handles of a received message, each at most
/// once.
pub struct Decoder<'a> {
    /// The message.
    pub buffer: &'a [u8],
    /// The end of the region claimed last.
    pub bytes: usize,
    /// The cursors of the regions claimed so far.
    pub states: Vec<DecodingState<'a>>,
    /// The handles of the message; a claimed one leaves its place empty.
    pub handles: Vec<Option<UntypedHandle>>,
}

impl<'a> View for Decoder<'a> {
    type V = DecoderView;

    open spec fn view(&self) -> DecoderView {
        DecoderView {
            buffer: self.buffer@,
            top: self.bytes as nat,
            states: Seq::new(self.states@.len(), |i: int| self.states@[i]@),
            handles: self.handles@,
        }
    }
}

impl<'a> Decoder<'a> {
    /// Whether `state` is the cursor of a region that this decoder claimed.
    pub open spec fn holds(&self, state: DecodingState<'a>) -> bool {
        &&& state.wf()
        &&& state.limit == self.buffer@.len()
        &&& state.global_offset + state.data@.len() <= self.bytes
        &&& state.data@ == self.buffer@.subrange(
            state.global_offset as int,
            state.global_offset + state.data@.len(),
        )
    }

    /// What was claimed lies in the message, and every cursor reads a region
    /// of the message that was claimed.
    pub open spec fn wf(&self) -> bool {
        &&& self.bytes <= self.buffer@.len()
        &&& forall|i: int| 0 <= i < self.states@.len() ==> self.holds(#[trigger] self.states@[i])
    }

    /// A decoder for the message `buffer` with the handles `handles`, with
    /// nothing claimed yet.
    pub fn new(buffer: &'a [u8], handles: Vec<UntypedHandle>) -> (decoder: Decoder<'a>)
        ensures
            decoder.wf(),
            decoder@ == (DecoderView {
                buffer: buffer@,
                top: 0,
                states: Seq::empty(),
                handles: handles@.map_values(|h: UntypedHandle| Some(h)),
            }),
    {
        let mut slots: Vec<Option<UntypedHandle>> = Vec::new();
        let ghost all = handles@;
        for handle in it: handles.into_iter()
            invariant
                it.seq() == all,
                slots@ == all.take(it.index() as int).map_values(|h: UntypedHandle| Some(h)),
        {
            slots.push(Some(handle));
            assert(slots@ =~= all.take(it.index() + 1).map_values(|h: UntypedHandle| Some(h)));
        }
        assert(all.take(all.len() as int) =~= all);
        let decoder = Decoder { buffer, bytes: 0, states: Vec::new(), handles: slots };
        assert(decoder@.states =~= Seq::empty());
        decoder
    }

    /// Claims the region that starts at `offset`, which is as long as its
    /// header states, and returns its context. The regions of a message are
    /// claimed in the order in which they lie.
    pub fn claim(&mut self, offset: usize) -> (context: Result<Context, ValidationError>)
        requires
            old(self).wf(),
        ensures
            final(self).wf(),
            match context {
                Ok(c) => {
                    &&& !old(self)@.claim_refused(offset as nat)
                    &&& final(self)@ == old(self)@.claimed(offset as nat)
                    &&& c == (Context { id: old(self).states@.len() as usize, offset, is_union: false })
                    &&& c.id == old(self)@.states.len()
                    &&& final(self)@.state(c).pos == 0
                    &&& offset % 8 == 0
                },
                Err(e) => {
                    &&& e == ValidationError::IllegalPointer
                    &&& old(self)@.claim_refused(offset as nat)
                    &&& final(self)@ == old(self)@
                },
            },
    {
        let len = self.buffer.len();
        if offset % 8 != 0 || offset < self.bytes || offset > len || len - offset < 8 {
            return Err(ValidationError::IllegalPointer);
        }
        let head = slice_subrange(self.buffer, offset, offset + 4);
        assert(head@ == self.buffer@.subrange(offset as int, offset + 8).subrange(0, 4));
        let size = u32::from_wire_bytes(head) as usize;
        if size < 8 || size > len - offset {
            return Err(ValidationError::IllegalPointer);
        }
        let data = slice_subrange(self.buffer, offset, offset + size);
        assert(data@.subrange(0, 4) == head@);
        let state = DecodingState::new(data, offset, len);
        let id = self.states.len();
        self.states.push(state);
        self.bytes = offset + size;
        assert(self@.states =~= old(self)@.claimed(offset as nat).states);
        Ok(Context::new(id, offset))
    }

    /// The cursor of the region of `context`. Whatever the caller reads
    /// through it, the decoder stays well-formed as long as the cursor stays
    /// in its region.
    pub fn get_mut(&mut self, context: &Context) -> (state: &mut DecodingState<'a>)
        requires
            old(self).wf(),
            old(self)@.has(*context),
        ensures
            state.wf(),
            state@ == old(self)@.state(*context),
            state.limit == old(self)@.buffer.len(),
            final(state).wf() && final(state).same_region(state) ==> final(self).wf(),
            final(state).wf() && final(state).same_region(state) ==> final(self)@ =~= old(
                self,
            )@.with_state(context.id as int, final(state)@),
    {
        let id = context.id;
        &mut self.states[id]
    }

    /// Claims handle `index` of the message as a handle of type `T`.
    pub fn claim_handle<T: CastHandle>(&mut self, index: u32) -> (handle: Result<
        T,
        ValidationError,
    >)
        requires
            old(self).wf(),
        ensures
            final(self).wf(),
            match handle {
                Ok(h) => {
                    &&& !old(self)@.handle_refused::<T>(index as nat)
                    &&& final(self)@ == old(self)@.without_handle(index as nat)
                    &&& h == T::spec_from_untyped(old(self)@.handles[index as int].unwrap())
                    &&& h.spec_untyped() == old(self)@.handles[index as int].unwrap()
                },
                Err(e) => {
                    &&& e == ValidationError::IllegalHandle
                    &&& old(self)@.handle_refused::<T>(index as nat)
                    &&& final(self)@ == old(self)@
                },
            },
    {
        let i = index as usize;
        if i >= self.handles.len() {
            return Err(ValidationError::IllegalHandle);
        }
        let accepted = match &self.handles[i] {
            Some(h) => T::accepts(h.kind),
            None => false,
        };
        if !accepted {
            return Err(ValidationError::IllegalHandle);
        }
        let taken = self.handles[i].take();
        assert(self@.states =~= old(self)@.states);
        Ok(T::from_untyped(taken.unwrap()))
    }

    /// Gives up the decoder for the handles of the message that were not
    /// claimed, in their order. They are still owned by the message: whoever
    /// takes them has to close them.
    pub fn into_unclaimed(self) -> (handles: Vec<UntypedHandle>)
        ensures
            handles@ == spec_unclaimed(self@.handles),
    {
        let ghost all = self.handles@;
        let mut handles: Vec<UntypedHandle> = Vec::new();
        for slot in it: self.handles.into_iter()
            invariant
                it.seq() == all,
                handles@ == spec_unclaimed(all.take(it.index() as int)),
        {
            proof {
                let prefix = all.take(it.index() as int);
                assert(all.take(it.index() + 1) =~= prefix.push(slot));
                prefix.lemma_filter_push(slot, |h: Option<UntypedHandle>| h.is_some());
                assert(spec_unclaimed(prefix.push(slot)) =~= if slot.is_some() {
                    spec_unclaimed(prefix).push(slot.unwrap())
                } else {
                    spec_unclaimed(prefix)
                });
            }
            match slot {
                Some(handle) => handles.push(handle),
                None => {},
            }
        }
        assert(all.take(all.len() as int) =~= all);
        handles
    }

    /// The number of handles of the message that were not claimed.
    pub fn unclaimed_handles(&self) -> (count: usize)
        ensures
            count == self@.handles.filter(|h: Option<UntypedHandle>| h.is_some()).len(),
    {
        let mut count: usize = 0;
        let n = self.handles.len();
        let mut i: usize = 0;
        while i < n
            invariant
                n == self.handles@.len(),
                i <= n,
                count <= i,
                count == self.handles@.take(i as int).filter(
                    |h: Option<UntypedHandle>| h.is_some(),
                ).len(),
            decreases n - i,
        {
            proof {
                let pred = |h: Option<UntypedHandle>| h.is_some();
                let prefix = self.handles@.take(i as int);
                assert(self.handles@.take(i + 1) =~= prefix.push(self.handles@[i as int]));
                prefix.lemma_filter_push(self.handles@[i as int], pred);
            }
            if self.handles[i].is_some() {
                count = count + 1;
            }
            i = i + 1;
        }
        assert(self.handles@.take(n as int) =~= self.handles@);
        count
    }
}

} // verus!
