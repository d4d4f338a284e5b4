//! The writing side: the cursor that fills one region, and the encoder that
//! hands out regions and gathers the handles of a message.

use crate::bits::{align_bytes, align_default, align_up, lemma_align_up};
use crate::cursor::{lemma_align_bits, set_bit, splice, zeros, Cursor};
use crate::data::InterfaceData;
use crate::numeric::MojomNumeric;
use crate::system::UntypedHandle;
use vstd::prelude::*;

verus! {

/// What is known of the region that a value is written to or read from:
/// which region it is, where the region starts, and whether the region is
/// the cell of a union.
#[derive(Clone, Copy, Debug, PartialEq, Eq, Structural)]
pub struct Context {
    pub id: usize,
    pub offset: usize,
    pub is_union: bool,
}

impl Context {
    /// The context of region `id`, which starts at byte `offset` and is no
    /// union.
    pub fn new(id: usize, offset: usize) -> (context: Context)
        ensures
            context == (Context { id, offset, is_union: false }),
    {
        Context { id, offset, is_union: false }
    }

    /// The number of the region.
    pub fn id(&self) -> (id: usize)
        ensures
            id == self.id,
    {
        self.id
    }

    /// The offset in the message at which the region starts.
    pub fn offset(&self) -> (offset: usize)
        ensures
            offset == self.offset,
    {
        self.offset
    }

    /// Whether the region is the cell of a union.
    pub fn is_union(&self) -> (is_union: bool)
        ensures
            is_union == self.is_union,
    {
        self.is_union
    }

    /// The same context, with the union mark as given.
    pub fn set_is_union(self, value: bool) -> (context: Context)
        ensures
            context == (Context { is_union: value, ..self }),
    {
        Context { id: self.id, offset: self.offset, is_union: value }
    }
}

impl Default for Context {
    /// The context of the root: region 0 at offset 0, no union.
    fn default() -> (context: Context)
        ensures
            context == (Context { id: 0, offset: 0, is_union: false }),
    {
        Context { id: 0, offset: 0, is_union: false }
    }
}

/// The second word of a region's header, by the kind of the region.
#[derive(Clone, Copy, Debug, PartialEq, Eq, Structural)]
pub enum DataHeaderValue {
    /// The number of elements of an array.
    Elements(u32),
    /// The version of a struct.
    Version(u32),
    /// The tag of a union.
    UnionTag(u32),
}

impl DataHeaderValue {
    /// The word itself.
    pub open spec fn spec_value(self) -> u32 {
        match self {
            DataHeaderValue::Elements(n) => n,
            DataHeaderValue::Version(v) => v,
            DataHeaderValue::UnionTag(t) => t,
        }
    }

    /// The word itself.
    pub fn value(self) -> (word: u32)
        ensures
            word == self.spec_value(),
    {
        match self {
            DataHeaderValue::Elements(n) => n,
            DataHeaderValue::Version(v) => v,
            DataHeaderValue::UnionTag(t) => t,
        }
    }
}

/// The header of a region: the size of the region in bytes, the header
/// included, and the word that its kind asks for.
#[derive(Clone, Copy, Debug, PartialEq, Eq, Structural)]
pub struct DataHeader {
    pub size: usize,
    pub data: DataHeaderValue,
}

/// The eight bytes of a header: the size, then the second word, both as
/// little-endian 32-bit integers.
pub open spec fn header_bytes(size: u32, word: u32) -> Seq<u8> {
    size.spec_wire_bytes() + word.spec_wire_bytes()
}

impl DataHeader {
    /// The header of a region of `size` bytes.
    pub fn new(size: usize, data: DataHeaderValue) -> (header: DataHeader)
        ensures
            header == (DataHeader { size, data }),
    {
        DataHeader { size, data }
    }

    /// The size of the region in bytes.
    pub fn size(&self) -> (size: usize)
        ensures
            size == self.size,
    {
        self.size
    }

    /// The second word of the header.
    pub fn data(&self) -> (word: u32)
        ensures
            word == self.data.spec_value(),
    {
        self.data.value()
    }

    /// The eight bytes of the header.
    pub open spec fn spec_bytes(self) -> Seq<u8> {
        header_bytes(self.size as u32, self.data.spec_value())
    }

    /// The eight bytes of the header.
    pub fn to_bytes(&self) -> (bytes: Vec<u8>)
        requires
            self.size <= u32::MAX,
        ensures
            bytes@ == self.spec_bytes(),
            bytes@.len() == 8,
    {
        let mut bytes = (self.size as u32).wire_bytes();
        let mut word = self.data.value().wire_bytes();
        bytes.append(&mut word);
        bytes
    }
}

/// A vector of `n` zero bytes.
pub fn zeroed(n: usize) -> (bytes: Vec<u8>)
    ensures
        bytes@ == zeros(n as nat),
{
    let bytes = vec![0u8; n];
    assert(bytes@ =~= zeros(n as nat));
    bytes
}

/// Writes `bytes` into `data` from index `at` on.
pub fn write_at(data: &mut Vec<u8>, at: usize, bytes: &[u8])
    requires
        at + bytes@.len() <= old(data)@.len(),
    ensures
        final(data)@ == splice(old(data)@, at as int, bytes@),
        final(data)@.len() == old(data)@.len(),
{
    let n = bytes.len();
    let len = data.len();
    let mut i: usize = 0;
    while i < n
        invariant
            n == bytes@.len(),
            i <= n,
            at + n <= len,
            len == old(data)@.len(),
            data@.len() == old(data)@.len(),
            data@ == splice(old(data)@, at as int, bytes@.take(i as int)),
        decreases n - i,
    {
        data.set(at + i, bytes[i]);
        i = i + 1;
        assert(data@ =~= splice(old(data)@, at as int, bytes@.take(i as int)));
    }
    assert(bytes@.take(n as int) =~= bytes@);
}

/// The cursor that fills one region. It holds the bytes of the region until
/// the encoder takes them back.
pub struct EncodingState {
    /// The bytes of the region.
    pub data: Vec<u8>,
    /// The offset of the region in the message.
    pub global_offset: usize,
    /// The byte under the cursor.
    pub offset: usize,
    /// The bit under the cursor, within that byte.
    pub bit_offset: usize,
}

impl View for EncodingState {
    type V = Cursor;

    open spec fn view(&self) -> Cursor {
        Cursor {
            data: self.data@,
            base: self.global_offset as nat,
            pos: (8 * self.offset + self.bit_offset) as nat,
        }
    }
}

impl EncodingState {
    /// The cursor lies in its region, and a region is not larger than its
    /// header can say.
    pub open spec fn wf(&self) -> bool {
        &&& self.bit_offset < 8
        &&& self@.wf()
        &&& self.data@.len() <= u32::MAX
        &&& self.global_offset + self.data@.len() <= usize::MAX
    }

    /// The offset of the region in the message.
    pub fn global_offset(&self) -> (offset: usize)
        ensures
            offset == self@.base,
    {
        self.global_offset
    }

    /// Moves the cursor up to the next whole byte.
    pub fn align_to_byte(&mut self)
        requires
            old(self).wf(),
        ensures
            final(self).wf(),
            final(self)@ == old(self)@.aligned(8),
            final(self).bit_offset == 0,
    {
        if self.bit_offset > 0 {
            self.offset = self.offset + 1;
            self.bit_offset = 0;
        }
    }

    /// Moves the cursor up to the next multiple of `bytes` bytes from the
    /// start of the region.
    pub fn align_to_bytes(&mut self, bytes: usize)
        requires
            old(self).wf(),
            bytes > 0,
            old(self)@.fits(8 * bytes as nat, 0),
        ensures
            final(self).wf(),
            final(self)@ == old(self)@.aligned(8 * bytes as nat),
            final(self).bit_offset == 0,
            final(self).offset == old(self)@.at(bytes as nat),
    {
        proof {
            lemma_align_bits(self.offset as nat, self.bit_offset as nat, bytes as nat);
        }
        self.align_to_byte();
        self.offset = align_bytes(self.offset, bytes);
    }

    /// Writes `bytes` at the next byte aligned to `width` bytes.
    fn write(&mut self, width: usize, bytes: &[u8])
        requires
            old(self).wf(),
            width > 0,
            old(self)@.fits(8 * width as nat, 8 * bytes@.len()),
        ensures
            final(self).wf(),
            final(self)@ == old(self)@.put(width as nat, bytes@),
    {
        proof {
            lemma_align_bits(self.offset as nat, self.bit_offset as nat, width as nat);
        }
        self.align_to_bytes(width);
        write_at(&mut self.data, self.offset, bytes);
        self.offset = self.offset + bytes.len();
    }

    /// Writes an integer: its little-endian bytes, aligned to its size.
    pub fn encode<T: MojomNumeric>(&mut self, value: T)
        requires
            old(self).wf(),
            old(self)@.fits(8 * T::spec_width(), 8 * T::spec_width()),
        ensures
            final(self).wf(),
            final(self)@ == old(self)@.put(T::spec_width(), value.spec_wire_bytes()),
    {
        let bytes = value.wire_bytes();
        self.write(T::width(), bytes.as_slice());
    }

    /// Writes bytes as they are, from the next whole byte on.
    pub fn encode_bytes(&mut self, bytes: &[u8])
        requires
            old(self).wf(),
            old(self)@.fits(8, 8 * bytes@.len()),
        ensures
            final(self).wf(),
            final(self)@ == old(self)@.put(1, bytes@),
    {
        self.write(1, bytes);
    }

    /// Writes one bit at the cursor.
    pub fn encode_bool(&mut self, value: bool)
        requires
            old(self).wf(),
            old(self)@.fits(1, 1),
        ensures
            final(self).wf(),
            final(self)@ == old(self)@.put_bit(value),
    {
        let byte = self.data[self.offset];
        let k = self.bit_offset as u8;
        let mask: u8 = 1u8 << k;
        let updated = if value {
            byte | mask
        } else {
            byte & !mask
        };
        assert(updated == set_bit(byte, k, value));
        self.data.set(self.offset, updated);
        if self.bit_offset == 7 {
            self.offset = self.offset + 1;
            self.bit_offset = 0;
        } else {
            self.bit_offset = self.bit_offset + 1;
        }
    }

    /// Writes the pointer to the region that starts at `target`, as the
    /// distance from the pointer's own place; the null pointer where `target`
    /// is 0.
    pub fn encode_pointer(&mut self, target: u64)
        requires
            old(self).wf(),
            old(self)@.fits(64, 64),
            target == 0 || target >= old(self)@.location(8),
        ensures
            final(self).wf(),
            final(self)@ == old(self)@.put(8, spec_pointer(old(self)@, target).spec_wire_bytes()),
    {
        proof {
            lemma_align_bits(self.offset as nat, self.bit_offset as nat, 8);
        }
        self.align_to_bytes(8);
        if target == 0 {
            self.encode(0u64);
        } else {
            let location = (self.global_offset + self.offset) as u64;
            self.encode(target - location);
        }
    }

    /// Writes the null pointer.
    pub fn encode_null_pointer(&mut self)
        requires
            old(self).wf(),
            old(self)@.fits(64, 64),
        ensures
            final(self).wf(),
            final(self)@ == old(self)@.put(8, 0u64.spec_wire_bytes()),
    {
        self.encode(0u64);
    }

    /// Writes the null union: sixteen zero bytes, aligned to 8.
    pub fn encode_null_union(&mut self)
        requires
            old(self).wf(),
            old(self)@.fits(64, 128),
        ensures
            final(self).wf(),
            final(self)@ == old(self)@.put(8, zeros(16)),
    {
        let bytes = zeroed(16);
        self.write(8, bytes.as_slice());
    }

    /// Writes the size and the tag of a union cell, at the next multiple of
    /// 8 bytes.
    pub fn encode_union_header(&mut self, tag: u32)
        requires
            old(self).wf(),
            old(self)@.fits(64, 64),
        ensures
            final(self).wf(),
            final(self)@ == old(self)@.put(8, 16u32.spec_wire_bytes() + tag.spec_wire_bytes()),
    {
        let mut bytes = 16u32.wire_bytes();
        let mut word = tag.wire_bytes();
        bytes.append(&mut word);
        self.write(8, bytes.as_slice());
    }

    /// Writes a reference to an interface: the index of its handle, then its
    /// version, at the next multiple of 4 bytes.
    pub fn encode_interface_data(&mut self, data: InterfaceData)
        requires
            old(self).wf(),
            old(self)@.fits(32, 64),
        ensures
            final(self).wf(),
            final(self)@ == old(self)@.put(
                4,
                data.handle.index.spec_wire_bytes() + data.version.spec_wire_bytes(),
            ),
    {
        let mut bytes = data.handle.index.wire_bytes();
        let mut version = data.version.wire_bytes();
        bytes.append(&mut version);
        self.write(4, bytes.as_slice());
    }

    /// Writes the null handle: the index `u32::MAX`.
    pub fn encode_null_handle(&mut self)
        requires
            old(self).wf(),
            old(self)@.fits(32, 32),
        ensures
            final(self).wf(),
            final(self)@ == old(self)@.put(4, u32::MAX.spec_wire_bytes()),
    {
        self.encode(u32::MAX);
    }

    /// Writes the null interface: the null handle and version 0.
    pub fn encode_null_interface(&mut self)
        requires
            old(self).wf(),
            old(self)@.fits(32, 64),
        ensures
            final(self).wf(),
            final(self)@ == old(self)@.put(4, u32::MAX.spec_wire_bytes() + 0u32.spec_wire_bytes()),
    {
        self.encode_interface_data(InterfaceData::null());
    }
}

/// The value of the pointer that stands under the cursor `cursor` and points
/// to the region at `target`: the distance between the two, and 0 for the
/// null pointer.
pub open spec fn spec_pointer(cursor: Cursor, target: u64) -> u64 {
    if target == 0 {
        0
    } else {
        (target - cursor.location(8)) as u64
    }
}

/// The model of an encoder: the buffer of the message, how much of it has
/// been handed out to regions, the handles gathered so far, and the number of
/// regions handed out.
#[verifier::ext_equal]
pub struct EncoderView {
    pub buffer: Seq<u8>,
    pub end: nat,
    pub handles: Seq<UntypedHandle>,
    pub regions: nat,
}

impl EncoderView {
    /// The part of the buffer that has been handed out.
    pub open spec fn bytes(self) -> Seq<u8> {
        self.buffer.take(self.end as int)
    }

    /// Whether a region of `size` bytes can be handed out: it holds its
    /// header, its size fits in the header, and the buffer has room for it up
    /// to the next multiple of 8.
    pub open spec fn can_reserve(self, size: nat) -> bool {
        &&& 8 <= size <= u32::MAX
        &&& self.end + align_up(size, 8) <= self.buffer.len()
    }

    /// The encoder after it handed out a region of `size` bytes: the region
    /// and the bytes that round it up to 8 are zero.
    pub open spec fn reserve(self, size: nat) -> EncoderView {
        EncoderView {
            buffer: splice(self.buffer, self.end as int, zeros(align_up(size, 8))),
            end: self.end + align_up(size, 8),
            regions: self.regions + 1,
            ..self
        }
    }

    /// The encoder after it took back the bytes of a region.
    pub open spec fn store(self, region: Cursor) -> EncoderView {
        EncoderView { buffer: splice(self.buffer, region.base as int, region.data), ..self }
    }

    /// The encoder after it took a handle.
    pub open spec fn with_handle(self, handle: UntypedHandle) -> EncoderView {
        EncoderView { handles: self.handles.push(handle), ..self }
    }
}

/// The region that an encoder hands out for `header` at offset `base`: the
/// header, then zeros, and the cursor behind the header.
pub open spec fn fresh_region(header: DataHeader, base: nat) -> Cursor {
    Cursor {
        data: header.spec_bytes() + zeros((header.size - 8) as nat),
        base,
        pos: 64,
    }
}

/// Hands out the regions of a message, one behind the other, and gathers the
/// handles that the message carries.
pub struct Encoder {
    /// The buffer of the message.
    pub buffer: Vec<u8>,
    /// The number of bytes handed out.
    pub bytes: usize,
    /// The handles gathered so far.
    pub handles: Vec<UntypedHandle>,
    /// The number of regions handed out.
    pub regions: usize,
}

impl View for Encoder {
    type V = EncoderView;

    open spec fn view(&self) -> EncoderView {
        EncoderView {
            buffer: self.buffer@,
            end: self.bytes as nat,
            handles: self.handles@,
            regions: self.regions as nat,
        }
    }
}

impl Encoder {
    /// What has been handed out lies in the buffer and ends at a multiple of
    /// 8, and every region took at least its header.
    pub open spec fn wf(&self) -> bool {
        &&& self.bytes <= self.buffer@.len()
        &&& self.bytes % 8 == 0
        &&& 8 * self.regions <= self.bytes
    }

    /// An encoder that writes into `buffer`, with nothing handed out yet.
    pub fn new(buffer: Vec<u8>) -> (encoder: Encoder)
        ensures
            encoder.wf(),
            encoder@ == (EncoderView {
                buffer: buffer@,
                end: 0,
                handles: Seq::empty(),
                regions: 0,
            }),
    {
        Encoder { buffer, bytes: 0, handles: Vec::new(), regions: 0 }
    }

    /// The number of bytes handed out so far.
    pub fn size(&self) -> (size: usize)
        ensures
            size == self@.end,
    {
        self.bytes
    }

    /// Hands out the next region, for a value whose header is `header`. The
    /// region starts at the first multiple of 8 that is free; its bytes are
    /// zero but for the header. Returns the offset of the region, the cursor
    /// that fills it, placed behind the header, and the context of the
    /// region.
    #[verifier::rlimit(40)]
    pub fn add(&mut self, header: &DataHeader) -> (region: (u64, EncodingState, Context))
        requires
            old(self).wf(),
            old(self)@.can_reserve(header.size as nat),
        ensures
            final(self).wf(),
            final(self)@ == old(self)@.reserve(header.size as nat),
            region.0 == old(self)@.end,
            region.0 % 8 == 0,
            region.1.wf(),
            region.1@ == fresh_region(*header, old(self)@.end),
            region.1@.data.len() == header.size,
            region.1@.base + align_up(region.1@.data.len(), 8) <= final(self)@.end,
            region.2 == (Context {
                id: old(self).regions,
                offset: old(self).bytes,
                is_union: false,
            }),
    {
        let size = header.size();
        let capacity = self.buffer.len();
        proof {
            lemma_align_up(size as nat, 8);
        }
        let start = align_default(self.bytes);
        let reserved = align_default(size);
        let zero = zeroed(reserved);
        write_at(&mut self.buffer, start, zero.as_slice());
        self.bytes = start + reserved;
        let mut data = zeroed(size);
        let head = header.to_bytes();
        write_at(&mut data, 0, head.as_slice());
        assert(data@ == header.spec_bytes() + zeros((size - 8) as nat)) by {
            assert(splice(zeros(size as nat), 0, head@) =~= head@ + zeros((size - 8) as nat));
        }
        let state = EncodingState { data, global_offset: start, offset: 8, bit_offset: 0 };
        let context = Context::new(self.regions, start);
        self.regions = self.regions + 1;
        (start as u64, state, context)
    }

    /// Takes back the bytes of a region that this encoder handed out.
    pub fn commit(&mut self, state: EncodingState)
        requires
            old(self).wf(),
            state.wf(),
            state@.base + state@.data.len() <= old(self)@.end,
        ensures
            final(self).wf(),
            final(self)@ == old(self)@.store(state@),
    {
        write_at(&mut self.buffer, state.global_offset, state.data.as_slice());
    }

    /// Takes a handle into the message, and returns its index in the handle
    /// vector.
    pub fn add_handle(&mut self, handle: UntypedHandle) -> (index: u32)
        requires
            old(self).wf(),
            old(self)@.handles.len() < u32::MAX,
        ensures
            final(self).wf(),
            final(self)@ == old(self)@.with_handle(handle),
            index == old(self)@.handles.len(),
    {
        let index = self.handles.len() as u32;
        self.handles.push(handle);
        index
    }

    /// Gives up the buffer and the handles of the message.
    pub fn unwrap(self) -> (message: (Vec<u8>, Vec<UntypedHandle>))
        ensures
            message.0@ == self@.buffer,
            message.1@ == self@.handles,
    {
        (self.buffer, self.handles)
    }
}

} // verus!
