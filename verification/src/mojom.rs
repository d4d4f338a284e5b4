//! What a type states to take part in a message, and what the bindings do
//! for every such type.

use crate::bits::{align_up, lemma_align_up, lemma_align_up_fixed, Bits, UNION_SIZE};
use crate::cursor::{lemma_put_skip, Cursor};
use crate::decoding::{spec_decode_pointer, Decoder, DecoderView, ValidationError};
use crate::encoding::{
    fresh_region, spec_pointer, zeroed, Context, DataHeader, DataHeaderValue, Encoder, EncoderView,
    EncodingState,
};
use crate::numeric::MojomNumeric;
use crate::system::UntypedHandle;
use vstd::prelude::*;

verus! {

/// The ways in which a value lies in the region of its parent.
#[derive(Clone, Copy, Debug, PartialEq, Eq, Structural)]
pub enum MojomType {
    /// The value itself lies there.
    Simple,
    /// A pointer to a region of its own lies there.
    Pointer,
    /// A union cell lies there, or a pointer to one.
    Union,
    /// The index of a handle lies there.
    Handle,
    /// The index of a handle and a version lie there.
    Interface,
}

/// What reading a value from a message comes to.
pub enum Decoded<V> {
    /// The value, and the decoder behind it.
    Value(DecoderView, V),
    /// The message is refused.
    Invalid(ValidationError),
    /// Nothing is said of what is read: the message holds text that is not
    /// UTF-8, or values of the type cannot be read at all.
    Undefined,
}

/// Whether `bits` bits, aligned to `align_bits` bits, is how a value of the
/// given category lies in the region of its parent. A simple value is one
/// packed bit, or 1, 2, 4 or 8 bytes aligned to their number. A pointer takes
/// 8 bytes; a union a cell of 16 bytes, or a pointer where its parent is a
/// union itself; a handle 4 bytes; an interface a handle and 4 bytes more.
pub open spec fn layout_of(category: MojomType, is_union: bool, align_bits: nat, bits: nat) -> bool {
    match category {
        MojomType::Simple => {
            ||| align_bits == 1 && bits == 1
            ||| {
                &&& align_bits == 8 || align_bits == 16 || align_bits == 32 || align_bits == 64
                &&& bits == align_bits
            }
        },
        MojomType::Pointer => align_bits == 64 && bits == 64,
        MojomType::Union => align_bits == 64 && bits == if is_union {
            64nat
        } else {
            128nat
        },
        MojomType::Handle => align_bits == 32 && bits == 32,
        MojomType::Interface => align_bits == 32 && bits == 64,
    }
}

/// Whether a value can be written under `state` with `encoder`: the region
/// has room for what is embedded, the buffer for `size` more bytes and the
/// handle vector for `handles` more handles, and the region was handed out by
/// the encoder.
pub open spec fn encode_ready(
    encoder: EncoderView,
    state: Cursor,
    align_bits: nat,
    bits: nat,
    size: nat,
    handles: nat,
) -> bool {
    &&& state.fits(align_bits, bits)
    &&& state.base + state.data.len() <= encoder.end
    &&& encoder.end + size <= encoder.buffer.len()
    &&& encoder.handles.len() + handles <= u32::MAX
}

/// What writing a value does whatever the value holds: the cursor moves
/// behind what is embedded, `size` bytes of the buffer are handed out, and
/// `handles` handles are taken.
pub open spec fn encode_step(
    encoder: EncoderView,
    state: Cursor,
    encoder_after: EncoderView,
    state_after: Cursor,
    align_bits: nat,
    bits: nat,
    size: nat,
    handles: nat,
) -> bool {
    &&& state_after.base == state.base
    &&& state_after.data.len() == state.data.len()
    &&& state_after.pos == state.after(align_bits, bits)
    &&& encoder_after.buffer.len() == encoder.buffer.len()
    &&& encoder_after.end == encoder.end + size
    &&& encoder_after.handles.len() == encoder.handles.len() + handles
}

/// What reading a value does whatever the message holds: the message stays,
/// regions and handles are claimed but none is given back, the cursor of the
/// region moves behind what is embedded, and the cursors of the other regions
/// that were claimed before stay.
pub open spec fn decode_step(
    decoder: DecoderView,
    decoder_after: DecoderView,
    context: Context,
    align_bits: nat,
    bits: nat,
) -> bool {
    &&& decoder_after.buffer == decoder.buffer
    &&& decoder_after.handles.len() == decoder.handles.len()
    &&& decoder_after.states.len() >= decoder.states.len()
    &&& decoder_after.top >= decoder.top
    &&& forall|i: int|
        0 <= i < decoder.states.len() && i != context.id ==> #[trigger] decoder_after.states[i]
            == decoder.states[i]
    &&& decoder_after.state(context) == (Cursor {
        pos: decoder.state(context).after(align_bits, bits),
        ..decoder.state(context)
    })
}

/// What reading does to a decoder whether a value is read or the message is
/// refused: the message stays, and handles are claimed, but none is given
/// back or exchanged.
pub open spec fn decode_kept(decoder: DecoderView, decoder_after: DecoderView) -> bool {
    &&& decoder_after.buffer == decoder.buffer
    &&& decoder_after.handles.len() == decoder.handles.len()
    &&& forall|i: int|
        0 <= i < decoder.handles.len() ==> #[trigger] decoder_after.handles[i]
            == decoder.handles[i] || decoder_after.handles[i].is_none()
}

/// What a type states of its values in a message.
///
/// A value lies in the region of its parent, where it takes
/// `spec_embed_size` bits, and in regions of its own, which take
/// `spec_compute_size` bytes. Of the context only the union mark bears on
/// either.
pub trait MojomValue: Sized + DeepView {
    /// The way in which a value lies in the region of its parent.
    spec fn spec_mojom_type() -> MojomType;

    /// The alignment of what is embedded, in bits: 1 where values are packed
    /// bit by bit.
    spec fn spec_align_bits() -> nat;

    /// The bits that a value takes in the region of its parent.
    spec fn spec_embed_size(is_union: bool) -> nat;

    /// The bytes that the value takes in regions of its own.
    spec fn spec_compute_size(&self, is_union: bool) -> nat;

    /// The handles that the value owns, in the order in which they are
    /// written.
    spec fn spec_handles(&self) -> Seq<UntypedHandle>;

    /// Whether the value can be written: whatever a header states of it fits
    /// the header.
    spec fn spec_encodable(&self, is_union: bool) -> bool;

    /// Whether the value is written in one way only. It is not where the
    /// order of its parts is left open.
    spec fn spec_canonical(&self) -> bool;
}

/// A type whose values can be written to a message and read from one.
pub trait MojomEncodable: MojomValue {
    /// The encoder and the region after the value was written.
    spec fn spec_encode(&self, encoder: EncoderView, state: Cursor, is_union: bool) -> (
        EncoderView,
        Cursor,
    );

    /// The value that is read under the cursor of the region of `context`.
    spec fn spec_decode(decoder: DecoderView, context: Context) -> Decoded<Self::V>;

    /// The way in which a value lies in the region of its parent.
    fn mojom_type() -> (category: MojomType)
        ensures
            category == Self::spec_mojom_type(),
    ;

    /// The alignment of what is embedded, in bytes. A type whose values are
    /// packed bit by bit has none.
    fn mojom_alignment() -> (alignment: usize)
        requires
            Self::spec_align_bits() >= 8,
        ensures
            8 * alignment == Self::spec_align_bits(),
    ;

    /// The bits that a value takes in the region of its parent.
    fn embed_size(context: &Context) -> (bits: Bits)
        ensures
            bits.0 == Self::spec_embed_size(context.is_union),
            layout_of(
                Self::spec_mojom_type(),
                context.is_union,
                Self::spec_align_bits(),
                bits.0 as nat,
            ),
    ;

    /// The bytes that the value takes in regions of its own. The value must
    /// be one that can be written, and the number must fit a `usize`.
    fn compute_size(&self, context: Context) -> (size: usize)
        requires
            self.spec_encodable(context.is_union),
            self.spec_compute_size(context.is_union) <= usize::MAX,
        ensures
            size == self.spec_compute_size(context.is_union),
    ;

    /// Writes the value: what is embedded under the cursor of `state`, the
    /// rest into regions that `encoder` hands out. The region must have room
    /// for what is embedded, the buffer for what `compute_size` counts, and
    /// the handle vector for the handles of the value.
    fn encode(self, encoder: &mut Encoder, state: &mut EncodingState, context: Context)
        requires
            self.spec_encodable(context.is_union),
            old(encoder).wf(),
            old(state).wf(),
            encode_ready(
                old(encoder)@,
                old(state)@,
                Self::spec_align_bits(),
                Self::spec_embed_size(context.is_union),
                self.spec_compute_size(context.is_union),
                self.spec_handles().len(),
            ),
        ensures
            final(encoder).wf(),
            final(state).wf(),
            encode_step(
                old(encoder)@,
                old(state)@,
                final(encoder)@,
                final(state)@,
                Self::spec_align_bits(),
                Self::spec_embed_size(context.is_union),
                self.spec_compute_size(context.is_union),
                self.spec_handles().len(),
            ),
            self.spec_canonical() ==> (final(encoder)@, final(state)@) == self.spec_encode(
                old(encoder)@,
                old(state)@,
                context.is_union,
            ),
            self.spec_canonical() ==> final(encoder)@.handles == old(encoder)@.handles
                + self.spec_handles(),
    ;

    /// Reads a value under the cursor of the region of `context`. The region
    /// must hold what is embedded: the header of the region, which was
    /// accepted, vouches for that.
    fn decode(decoder: &mut Decoder, context: Context) -> (value: Result<Self, ValidationError>)
        requires
            old(decoder).wf(),
            old(decoder)@.has(context),
            old(decoder)@.state(context).fits(
                Self::spec_align_bits(),
                Self::spec_embed_size(context.is_union),
            ),
            !(Self::spec_decode(old(decoder)@, context) is Undefined),
        ensures
            final(decoder).wf(),
            decode_kept(old(decoder)@, final(decoder)@),
            match value {
                Ok(v) => {
                    &&& Self::spec_decode(old(decoder)@, context) == Decoded::Value(
                        final(decoder)@,
                        v.deep_view(),
                    )
                    &&& decode_step(
                        old(decoder)@,
                        final(decoder)@,
                        context,
                        Self::spec_align_bits(),
                        Self::spec_embed_size(context.is_union),
                    )
                },
                Err(e) => Self::spec_decode(old(decoder)@, context) == Decoded::<Self::V>::Invalid(
                    e,
                ),
            },
    ;
}

/// The context of the region that a decoder claims at `pointer`.
pub open spec fn claim_context(decoder: DecoderView, pointer: nat) -> Context {
    Context { id: decoder.states.len() as usize, offset: pointer as usize, is_union: false }
}

/// What reading the value of a region does whatever the message holds: the
/// message stays, regions and handles are claimed but none is given back, and
/// the cursors of the regions that were claimed before stay in their regions,
/// all but that of the region itself where they stood.
pub open spec fn decode_frame(
    decoder: DecoderView,
    decoder_after: DecoderView,
    context: Context,
) -> bool {
    &&& decoder_after.buffer == decoder.buffer
    &&& decoder_after.handles.len() == decoder.handles.len()
    &&& decoder_after.states.len() >= decoder.states.len()
    &&& decoder_after.top >= decoder.top
    &&& forall|i: int|
        0 <= i < decoder.states.len() && i != context.id ==> #[trigger] decoder_after.states[i]
            == decoder.states[i]
    &&& decoder_after.state(context).data == decoder.state(context).data
    &&& decoder_after.state(context).base == decoder.state(context).base
}

/// A type whose values lie in a region of their own, to which a pointer in
/// the region of their parent leads. The region is no union: what the type
/// states here, it states of a region whose context bears no union mark.
pub trait MojomPointer: MojomValue {
    /// The second word of the header of the region.
    spec fn spec_header_data(&self) -> DataHeaderValue;

    /// The size in bytes of the region of the value, the header included.
    spec fn spec_serialized_size(&self) -> nat;

    /// The encoder and the region of the value after the region was filled.
    spec fn spec_encode_value(&self, encoder: EncoderView, state: Cursor) -> (EncoderView, Cursor);

    /// The value that the region of `context` holds.
    spec fn spec_decode_value(decoder: DecoderView, context: Context) -> Decoded<Self::V>;

    /// The second word of the header of the region.
    fn header_data(&self) -> (data: DataHeaderValue)
        ensures
            data == self.spec_header_data(),
    ;

    /// The size in bytes of the region of the value, the header included.
    /// With what rounds it up to 8 it is part of what `compute_size` counts.
    fn serialized_size(&self, context: &Context) -> (size: usize)
        requires
            self.spec_encodable(false),
        ensures
            size == self.spec_serialized_size(),
            8 <= size <= u32::MAX,
            align_up(size as nat, 8) <= self.spec_compute_size(false),
    ;

    /// Fills the region of the value, which `encoder` has handed out with
    /// the header written and the cursor behind it.
    fn encode_value(self, encoder: &mut Encoder, state: &mut EncodingState, context: Context)
        requires
            self.spec_encodable(false),
            !context.is_union,
            old(encoder).wf(),
            old(state).wf(),
            old(state)@.pos == 64,
            old(state)@.data.len() == self.spec_serialized_size(),
            old(state)@.base + old(state)@.data.len() <= old(encoder)@.end,
            old(encoder)@.end + self.spec_compute_size(false) - align_up(
                self.spec_serialized_size(),
                8,
            ) <= old(encoder)@.buffer.len(),
            old(encoder)@.handles.len() + self.spec_handles().len() <= u32::MAX,
        ensures
            final(encoder).wf(),
            final(state).wf(),
            final(state)@.base == old(state)@.base,
            final(state)@.data.len() == old(state)@.data.len(),
            final(encoder)@.buffer.len() == old(encoder)@.buffer.len(),
            final(encoder)@.end == old(encoder)@.end + self.spec_compute_size(false) - align_up(
                self.spec_serialized_size(),
                8,
            ),
            final(encoder)@.handles.len() == old(encoder)@.handles.len()
                + self.spec_handles().len(),
            self.spec_canonical() ==> (final(encoder)@, final(state)@) == self.spec_encode_value(
                old(encoder)@,
                old(state)@,
            ),
            self.spec_canonical() ==> final(encoder)@.handles == old(encoder)@.handles
                + self.spec_handles(),
    ;

    /// Reads the value of the region of `context`, which was claimed and not
    /// read yet.
    fn decode_value(decoder: &mut Decoder, context: Context) -> (value: Result<
        Self,
        ValidationError,
    >)
        requires
            old(decoder).wf(),
            old(decoder)@.has(context),
            old(decoder)@.state(context).pos == 0,
            !context.is_union,
            !(Self::spec_decode_value(old(decoder)@, context) is Undefined),
        ensures
            final(decoder).wf(),
            decode_kept(old(decoder)@, final(decoder)@),
            match value {
                Ok(v) => {
                    &&& Self::spec_decode_value(old(decoder)@, context) == Decoded::Value(
                        final(decoder)@,
                        v.deep_view(),
                    )
                    &&& decode_frame(old(decoder)@, final(decoder)@, context)
                },
                Err(e) => Self::spec_decode_value(old(decoder)@, context) == Decoded::<
                    Self::V,
                >::Invalid(e),
            },
    ;

    /// Has `encoder` hand out the region of the value, fills it, and returns
    /// its offset in the message. The pointer to it is for the caller to
    /// write.
    #[must_use]
    fn encode_new(self, encoder: &mut Encoder, context: Context) -> (offset: u64)
        requires
            self.spec_encodable(false),
            old(encoder).wf(),
            old(encoder)@.end + self.spec_compute_size(false) <= old(encoder)@.buffer.len(),
            old(encoder)@.handles.len() + self.spec_handles().len() <= u32::MAX,
        ensures
            final(encoder).wf(),
            offset == old(encoder)@.end,
            offset % 8 == 0,
            final(encoder)@.buffer.len() == old(encoder)@.buffer.len(),
            final(encoder)@.end == old(encoder)@.end + self.spec_compute_size(false),
            final(encoder)@.handles.len() == old(encoder)@.handles.len()
                + self.spec_handles().len(),
            self.spec_canonical() ==> final(encoder)@ == ({
                let filled = self.spec_encode_value(
                    old(encoder)@.reserve(self.spec_serialized_size()),
                    fresh_region(
                        DataHeader {
                            size: self.spec_serialized_size() as usize,
                            data: self.spec_header_data(),
                        },
                        old(encoder)@.end,
                    ),
                );
                filled.0.store(filled.1)
            }),
            self.spec_canonical() ==> final(encoder)@.handles == old(encoder)@.handles
                + self.spec_handles(),
    {
        let data_size = self.serialized_size(&context);
        let data_header = DataHeader::new(data_size, self.header_data());
        let (offset, mut state, new_context) = encoder.add(&data_header);
        self.encode_value(encoder, &mut state, new_context);
        encoder.commit(state);
        offset
    }

    /// Claims the region at `pointer` and reads the value that it holds.
    fn decode_new(decoder: &mut Decoder, context: Context, pointer: u64) -> (value: Result<
        Self,
        ValidationError,
    >)
        requires
            old(decoder).wf(),
            !old(decoder)@.claim_refused(pointer as nat) ==> !(Self::spec_decode_value(
                old(decoder)@.claimed(pointer as nat),
                claim_context(old(decoder)@, pointer as nat),
            ) is Undefined),
        ensures
            final(decoder).wf(),
            decode_kept(old(decoder)@, final(decoder)@),
            old(decoder)@.claim_refused(pointer as nat) ==> value == Err::<Self, ValidationError>(
                ValidationError::IllegalPointer,
            ),
            !old(decoder)@.claim_refused(pointer as nat) ==> match value {
                Ok(v) => {
                    &&& Self::spec_decode_value(
                        old(decoder)@.claimed(pointer as nat),
                        claim_context(old(decoder)@, pointer as nat),
                    ) == Decoded::Value(final(decoder)@, v.deep_view())
                    &&& decode_frame(
                        old(decoder)@.claimed(pointer as nat),
                        final(decoder)@,
                        claim_context(old(decoder)@, pointer as nat),
                    )
                },
                Err(e) => Self::spec_decode_value(
                    old(decoder)@.claimed(pointer as nat),
                    claim_context(old(decoder)@, pointer as nat),
                ) == Decoded::<Self::V>::Invalid(e),
            },
    {
        let len = decoder.buffer.len();
        if pointer > usize::MAX as u64 {
            return Err(ValidationError::IllegalPointer);
        }
        match decoder.claim(pointer as usize) {
            Ok(new_context) => {
                assert(new_context == claim_context(old(decoder)@, pointer as nat));
                assert(decoder@.state(new_context).pos == 0);
                Self::decode_value(decoder, new_context)
            },
            Err(err) => Err(err),
        }
    }
}

/// The encoder and the region after `value` was written by pointer: the
/// value in a region of its own, and the pointer to it under the cursor.
pub open spec fn spec_encode_as_pointer<T: MojomPointer>(
    value: &T,
    encoder: EncoderView,
    state: Cursor,
) -> (EncoderView, Cursor) {
    let filled = value.spec_encode_value(
        encoder.reserve(value.spec_serialized_size()),
        fresh_region(
            DataHeader {
                size: value.spec_serialized_size() as usize,
                data: value.spec_header_data(),
            },
            encoder.end,
        ),
    );
    (
        filled.0.store(filled.1),
        state.put(8, spec_pointer(state, encoder.end as u64).spec_wire_bytes()),
    )
}

/// The value that the pointer under the cursor of the region of `context`
/// leads to. A null pointer and one that leads to no region that can be
/// claimed are refused.
pub open spec fn spec_decode_as_pointer<T: MojomPointer>(
    decoder: DecoderView,
    context: Context,
) -> Decoded<T::V> {
    let moved = decoder.with_state(context.id as int, decoder.state(context).skip(8, 8));
    match spec_decode_pointer(decoder.state(context), decoder.buffer.len()) {
        Err(e) => Decoded::Invalid(e),
        Ok(None) => Decoded::Invalid(ValidationError::UnexpectedNullPointer),
        Ok(Some(pointer)) => if moved.claim_refused(pointer as nat) {
            Decoded::Invalid(ValidationError::IllegalPointer)
        } else {
            T::spec_decode_value(moved.claimed(pointer as nat), claim_context(moved, pointer as nat))
        },
    }
}

/// Writes a value that lies in a region of its own: the region, and the
/// pointer to it under the cursor of `state`. The pointer leads forward: the
/// region that `encoder` hands out lies behind the one that `state` fills.
pub fn encode_as_pointer<T: MojomPointer>(
    value: T,
    encoder: &mut Encoder,
    state: &mut EncodingState,
    context: Context,
)
    requires
        value.spec_encodable(false),
        old(encoder).wf(),
        old(state).wf(),
        encode_ready(
            old(encoder)@,
            old(state)@,
            64,
            64,
            value.spec_compute_size(false),
            value.spec_handles().len(),
        ),
    ensures
        final(encoder).wf(),
        final(state).wf(),
        encode_step(
            old(encoder)@,
            old(state)@,
            final(encoder)@,
            final(state)@,
            64,
            64,
            value.spec_compute_size(false),
            value.spec_handles().len(),
        ),
        spec_pointer(old(state)@, old(encoder)@.end as u64) == old(encoder)@.end - old(
            state,
        )@.location(8),
        value.spec_canonical() ==> (final(encoder)@, final(state)@) == spec_encode_as_pointer(
            &value,
            old(encoder)@,
            old(state)@,
        ),
        value.spec_canonical() ==> final(encoder)@.handles == old(encoder)@.handles
            + value.spec_handles(),
{
    let offset = value.encode_new(encoder, context);
    proof {
        (spec_pointer(state@, offset)).lemma_wire_bytes();
        lemma_put_skip(state@, 8, spec_pointer(state@, offset).spec_wire_bytes());
    }
    state.encode_pointer(offset);
}

/// Reads a value that lies in a region of its own: the pointer under the
/// cursor of the region of `context`, then the region that it leads to.
#[verifier::rlimit(40)]
pub fn decode_as_pointer<T: MojomPointer>(decoder: &mut Decoder, context: Context) -> (value: Result<
    T,
    ValidationError,
>)
    requires
        old(decoder).wf(),
        old(decoder)@.has(context),
        old(decoder)@.state(context).fits(64, 64),
        !(spec_decode_as_pointer::<T>(old(decoder)@, context) is Undefined),
    ensures
        final(decoder).wf(),
        decode_kept(old(decoder)@, final(decoder)@),
        match value {
            Ok(v) => {
                &&& spec_decode_as_pointer::<T>(old(decoder)@, context) == Decoded::Value(
                    final(decoder)@,
                    v.deep_view(),
                )
                &&& decode_step(old(decoder)@, final(decoder)@, context, 64, 64)
            },
            Err(e) => spec_decode_as_pointer::<T>(old(decoder)@, context) == Decoded::<
                T::V,
            >::Invalid(e),
        },
{
    proof {
        0u64.lemma_wire_bytes();
        lemma_put_skip(decoder@.state(context), 8, 0u64.spec_wire_bytes());
    }
    let len = decoder.buffer.len();
    let state = decoder.get_mut(&context);
    let target = state.decode_pointer();
    match target {
        Err(err) => Err(err),
        Ok(None) => Err(ValidationError::UnexpectedNullPointer),
        Ok(Some(pointer)) => {
            let ghost moved = decoder@;
            let count = decoder.states.len();
            assert(moved.states.len() == count);
            let value = T::decode_new(decoder, context, pointer);
            proof {
                if value.is_ok() {
                    lemma_decode_behind_pointer(
                        old(decoder)@,
                        context,
                        pointer as nat,
                        claim_context(moved, pointer as nat),
                        decoder@,
                    );
                }
            }
            value
        },
    }
}

/// Reading what a pointer leads to moves the cursor behind the pointer and
/// leaves the other cursors that there were.
#[verifier::rlimit(40)]
pub proof fn lemma_decode_behind_pointer(
    decoder: DecoderView,
    context: Context,
    pointer: nat,
    region: Context,
    after: DecoderView,
)
    requires
        decoder.has(context),
        decoder.state(context).fits(64, 64),
        !decoder.with_state(context.id as int, decoder.state(context).skip(8, 8)).claim_refused(
            pointer,
        ),
        region.id == decoder.states.len(),
        decode_frame(
            decoder.with_state(context.id as int, decoder.state(context).skip(8, 8)).claimed(
                pointer,
            ),
            after,
            region,
        ),
    ensures
        decode_step(decoder, after, context, 64, 64),
{
    let moved = decoder.with_state(context.id as int, decoder.state(context).skip(8, 8));
    let claimed = moved.claimed(pointer);
    0u64.lemma_wire_bytes();
    lemma_put_skip(decoder.state(context), 8, 0u64.spec_wire_bytes());
    assert forall|i: int| 0 <= i < decoder.states.len() && i != context.id implies #[trigger] after.states[i]
        == decoder.states[i] by {
        assert(claimed.states[i] == moved.states[i]);
    }
    assert(after.states[context.id as int] == claimed.states[context.id as int]);
    assert(claimed.states[context.id as int] == moved.states[context.id as int]);
}

/// A type whose values are unions: a tag and the one member that the tag
/// names. A union lies in a cell of 16 bytes: the size 16, the tag, and 8
/// bytes for the member. The cell lies in the region of the parent, or, where
/// the parent is a union itself, in a region of its own.
pub trait MojomUnion: MojomValue {
    /// The tag of the member that the value holds.
    spec fn spec_tag(&self) -> u32;

    /// The encoder and the region after the member was written.
    spec fn spec_encode_value(&self, encoder: EncoderView, state: Cursor, is_union: bool) -> (
        EncoderView,
        Cursor,
    );

    /// The value of the cell under the cursor of the region of `context`.
    spec fn spec_decode_value(decoder: DecoderView, context: Context) -> Decoded<Self::V>;

    /// The tag of the member that the value holds.
    fn get_tag(&self) -> (tag: u32)
        ensures
            tag == self.spec_tag(),
    ;

    /// Writes the member under the cursor, which stands behind the size and
    /// the tag of the cell. The member takes up to 8 bytes there; what it has
    /// in regions of its own is what `spec_compute_size(false)` counts.
    fn encode_value(self, encoder: &mut Encoder, state: &mut EncodingState, context: Context)
        requires
            self.spec_encodable(context.is_union),
            old(encoder).wf(),
            old(state).wf(),
            old(state)@.pos % 64 == 0,
            encode_ready(
                old(encoder)@,
                old(state)@,
                64,
                64,
                self.spec_compute_size(false),
                self.spec_handles().len(),
            ),
        ensures
            final(encoder).wf(),
            final(state).wf(),
            final(state)@.base == old(state)@.base,
            final(state)@.data.len() == old(state)@.data.len(),
            old(state)@.pos < final(state)@.pos <= old(state)@.pos + 64,
            final(encoder)@.buffer.len() == old(encoder)@.buffer.len(),
            final(encoder)@.end == old(encoder)@.end + self.spec_compute_size(false),
            final(encoder)@.handles.len() == old(encoder)@.handles.len()
                + self.spec_handles().len(),
            self.spec_canonical() ==> (final(encoder)@, final(state)@) == self.spec_encode_value(
                old(encoder)@,
                old(state)@,
                context.is_union,
            ),
            self.spec_canonical() ==> final(encoder)@.handles == old(encoder)@.handles
                + self.spec_handles(),
    ;

    /// Reads the cell under the cursor of the region of `context`: the size,
    /// the tag, and the member that the tag names.
    fn decode_value(decoder: &mut Decoder, context: Context) -> (value: Result<
        Self,
        ValidationError,
    >)
        requires
            old(decoder).wf(),
            old(decoder)@.has(context),
            old(decoder)@.state(context).pos % 64 == 0,
            old(decoder)@.state(context).fits(64, 128),
            !(Self::spec_decode_value(old(decoder)@, context) is Undefined),
        ensures
            final(decoder).wf(),
            decode_kept(old(decoder)@, final(decoder)@),
            match value {
                Ok(v) => {
                    &&& Self::spec_decode_value(old(decoder)@, context) == Decoded::Value(
                        final(decoder)@,
                        v.deep_view(),
                    )
                    &&& decode_frame(old(decoder)@, final(decoder)@, context)
                    &&& old(decoder)@.state(context).pos + 64 < final(decoder)@.state(context).pos
                        <= old(decoder)@.state(context).pos + 128
                },
                Err(e) => Self::spec_decode_value(old(decoder)@, context) == Decoded::<
                    Self::V,
                >::Invalid(e),
            },
    ;
}

/// The header of the region of a union with the tag `tag`.
pub open spec fn union_header(tag: u32) -> DataHeader {
    DataHeader { size: 16, data: DataHeaderValue::UnionTag(tag) }
}

/// The encoder and the region after the union `value` was written by
/// pointer: its cell in a region of its own, and the pointer to it under the
/// cursor.
pub open spec fn spec_encode_union_nested<T: MojomUnion>(
    value: &T,
    encoder: EncoderView,
    state: Cursor,
) -> (EncoderView, Cursor) {
    let filled = value.spec_encode_value(
        encoder.reserve(16),
        fresh_region(union_header(value.spec_tag()), encoder.end),
        true,
    );
    (
        filled.0.store(filled.1),
        state.put(8, spec_pointer(state, encoder.end as u64).spec_wire_bytes()),
    )
}

/// The encoder and the region after the union `value` was written in place:
/// the size 16 and the tag at the next multiple of 8 bytes, then the member,
/// and the cursor at the end of the cell.
pub open spec fn spec_encode_union_inline<T: MojomUnion>(
    value: &T,
    encoder: EncoderView,
    state: Cursor,
    is_union: bool,
) -> (EncoderView, Cursor) {
    let written = value.spec_encode_value(
        encoder,
        state.put(8, 16u32.spec_wire_bytes() + value.spec_tag().spec_wire_bytes()),
        is_union,
    );
    (written.0, written.1.aligned(64))
}

/// The union that the pointer under the cursor of the region of `context`
/// leads to. A null pointer, a pointer that leads to no region that can be
/// claimed and a region that is shorter than a cell are refused.
pub open spec fn spec_decode_union_nested<T: MojomUnion>(
    decoder: DecoderView,
    context: Context,
) -> Decoded<T::V> {
    let moved = decoder.with_state(context.id as int, decoder.state(context).skip(8, 8));
    match spec_decode_pointer(decoder.state(context), decoder.buffer.len()) {
        Err(e) => Decoded::Invalid(e),
        Ok(None) => Decoded::Invalid(ValidationError::UnexpectedNullPointer),
        Ok(Some(pointer)) => if moved.claim_refused(pointer as nat) {
            Decoded::Invalid(ValidationError::IllegalPointer)
        } else if moved.size_at(pointer as nat) < 16 {
            Decoded::Invalid(ValidationError::UnexpectedStructHeader)
        } else {
            T::spec_decode_value(
                moved.claimed(pointer as nat),
                Context { is_union: true, ..claim_context(moved, pointer as nat) },
            )
        },
    }
}

/// The union whose cell lies at the next multiple of 8 bytes under the cursor
/// of the region of `context`. A cell of zeros, which stands for no union, is
/// refused.
pub open spec fn spec_decode_union_inline<T: MojomUnion>(
    decoder: DecoderView,
    context: Context,
) -> Decoded<T::V> {
    let state = decoder.state(context);
    if state.peek(8, 16) == crate::cursor::zeros(16) {
        Decoded::Invalid(ValidationError::UnexpectedNullPointer)
    } else {
        match T::spec_decode_value(decoder.with_state(context.id as int, state.aligned(64)), context) {
            Decoded::Value(after, v) => Decoded::Value(
                after.with_state(context.id as int, after.state(context).aligned(64)),
                v,
            ),
            Decoded::Invalid(e) => Decoded::Invalid(e),
            Decoded::Undefined => Decoded::Undefined,
        }
    }
}

/// Writes a union by pointer: the cell in a region of its own, whose context
/// bears the union mark, and the pointer to it under the cursor of `state`.
pub fn encode_union_nested<T: MojomUnion>(
    val: T,
    encoder: &mut Encoder,
    state: &mut EncodingState,
    _context: Context,
)
    requires
        val.spec_encodable(true),
        old(encoder).wf(),
        old(state).wf(),
        encode_ready(
            old(encoder)@,
            old(state)@,
            64,
            64,
            16 + val.spec_compute_size(false),
            val.spec_handles().len(),
        ),
    ensures
        final(encoder).wf(),
        final(state).wf(),
        encode_step(
            old(encoder)@,
            old(state)@,
            final(encoder)@,
            final(state)@,
            64,
            64,
            16 + val.spec_compute_size(false),
            val.spec_handles().len(),
        ),
        val.spec_canonical() ==> (final(encoder)@, final(state)@) == spec_encode_union_nested(
            &val,
            old(encoder)@,
            old(state)@,
        ),
        val.spec_canonical() ==> final(encoder)@.handles == old(encoder)@.handles
            + val.spec_handles(),
{
    let tag = DataHeaderValue::UnionTag(val.get_tag());
    let data_header = DataHeader::new(UNION_SIZE, tag);
    let (offset, mut new_state, new_context) = encoder.add(&data_header);
    proof {
        (spec_pointer(state@, offset)).lemma_wire_bytes();
        lemma_put_skip(state@, 8, spec_pointer(state@, offset).spec_wire_bytes());
    }
    state.encode_pointer(offset);
    val.encode_value(encoder, &mut new_state, new_context.set_is_union(true));
    encoder.commit(new_state);
}

/// Writes a union in place: the size 16 and the tag at the next multiple of
/// 8 bytes under the cursor of `state`, then the member; the cursor ends at
/// the end of the cell.
#[verifier::rlimit(40)]
pub fn encode_union_inline<T: MojomUnion>(
    val: T,
    encoder: &mut Encoder,
    state: &mut EncodingState,
    context: Context,
)
    requires
        val.spec_encodable(context.is_union),
        old(encoder).wf(),
        old(state).wf(),
        encode_ready(
            old(encoder)@,
            old(state)@,
            64,
            128,
            val.spec_compute_size(false),
            val.spec_handles().len(),
        ),
    ensures
        final(encoder).wf(),
        final(state).wf(),
        encode_step(
            old(encoder)@,
            old(state)@,
            final(encoder)@,
            final(state)@,
            64,
            128,
            val.spec_compute_size(false),
            val.spec_handles().len(),
        ),
        val.spec_canonical() ==> (final(encoder)@, final(state)@) == spec_encode_union_inline(
            &val,
            old(encoder)@,
            old(state)@,
            context.is_union,
        ),
        val.spec_canonical() ==> final(encoder)@.handles == old(encoder)@.handles
            + val.spec_handles(),
{
    let tag = val.get_tag();
    proof {
        16u32.lemma_wire_bytes();
        tag.lemma_wire_bytes();
        lemma_put_skip(state@, 8, 16u32.spec_wire_bytes() + tag.spec_wire_bytes());
        lemma_align_up(state@.pos, 64);
    }
    state.encode_union_header(tag);
    let ghost start = state@.pos;
    proof {
        lemma_align_up_fixed(start, 64);
    }
    val.encode_value(encoder, state, context);
    proof {
        lemma_cell_end(state@.pos, (start - 64) as nat);
    }
    state.align_to_bytes(8);
}

/// Reads a union that lies in a region of its own: the pointer under the
/// cursor of the region of `context`, then the cell that it leads to.
#[verifier::rlimit(40)]
pub fn decode_union_nested<T: MojomUnion>(decoder: &mut Decoder, context: Context) -> (value: Result<
    T,
    ValidationError,
>)
    requires
        old(decoder).wf(),
        old(decoder)@.has(context),
        old(decoder)@.state(context).fits(64, 64),
        !(spec_decode_union_nested::<T>(old(decoder)@, context) is Undefined),
    ensures
        final(decoder).wf(),
        decode_kept(old(decoder)@, final(decoder)@),
        match value {
            Ok(v) => {
                &&& spec_decode_union_nested::<T>(old(decoder)@, context) == Decoded::Value(
                    final(decoder)@,
                    v.deep_view(),
                )
                &&& decode_step(old(decoder)@, final(decoder)@, context, 64, 64)
            },
            Err(e) => spec_decode_union_nested::<T>(old(decoder)@, context) == Decoded::<
                T::V,
            >::Invalid(e),
        },
{
    proof {
        0u64.lemma_wire_bytes();
        lemma_put_skip(decoder@.state(context), 8, 0u64.spec_wire_bytes());
    }
    let len = decoder.buffer.len();
    let state = decoder.get_mut(&context);
    let target = state.decode_pointer();
    let global_offset = match target {
        Ok(Some(ptr)) => ptr,
        Ok(None) => {
            return Err(ValidationError::UnexpectedNullPointer);
        },
        Err(err) => {
            return Err(err);
        },
    };
    match decoder.claim(global_offset as usize) {
        Ok(new_context) => {
            let id = new_context.id();
            assert(decoder@.states.len() == decoder.states@.len());
            assert(decoder@.states[id as int] == decoder.states@[id as int]@);
            if decoder.states[id].data.len() < UNION_SIZE {
                return Err(ValidationError::UnexpectedStructHeader);
            }
            let value = T::decode_value(decoder, new_context.set_is_union(true));
            proof {
                if value.is_ok() {
                    lemma_decode_behind_pointer(
                        old(decoder)@,
                        context,
                        global_offset as nat,
                        Context { is_union: true, ..new_context },
                        decoder@,
                    );
                }
            }
            value
        },
        Err(err) => Err(err),
    }
}

/// Reads a union that lies in place: the cell at the next multiple of 8
/// bytes under the cursor of the region of `context`; the cursor ends at the
/// end of the cell.
#[verifier::rlimit(40)]
pub fn decode_union_inline<T: MojomUnion>(decoder: &mut Decoder, context: Context) -> (value: Result<
    T,
    ValidationError,
>)
    requires
        old(decoder).wf(),
        old(decoder)@.has(context),
        old(decoder)@.state(context).fits(64, 128),
        !(spec_decode_union_inline::<T>(old(decoder)@, context) is Undefined),
    ensures
        final(decoder).wf(),
        decode_kept(old(decoder)@, final(decoder)@),
        match value {
            Ok(v) => {
                &&& spec_decode_union_inline::<T>(old(decoder)@, context) == Decoded::Value(
                    final(decoder)@,
                    v.deep_view(),
                )
                &&& decode_step(old(decoder)@, final(decoder)@, context, 64, 128)
            },
            Err(e) => spec_decode_union_inline::<T>(old(decoder)@, context) == Decoded::<
                T::V,
            >::Invalid(e),
        },
{
    let ghost before = decoder@.state(context);
    let ghost start = align_up(before.pos, 64);
    proof {
        lemma_align_up(before.pos, 64);
        lemma_align_up_fixed(start, 64);
    }
    let state = decoder.get_mut(&context);
    if state.skip_if_null_union() {
        return Err(ValidationError::UnexpectedNullPointer);
    }
    let ghost aligned = decoder@;
    assert(aligned == old(decoder)@.with_state(context.id as int, before.aligned(64)));
    let value = T::decode_value(decoder, context.clone());
    if value.is_ok() {
        let ghost read = decoder@;
        proof {
            lemma_cell_end(read.state(context).pos, start);
        }
        let state = decoder.get_mut(&context);
        state.align_to_bytes(8);
        proof {
            assert(decoder@ == read.with_state(context.id as int, read.state(context).aligned(64)));
            assert forall|i: int|
                0 <= i < old(decoder)@.states.len() && i != context.id implies #[trigger] decoder@.states[i]
                == old(decoder)@.states[i] by {
                assert(read.states[i] == aligned.states[i]);
            }
        }
    }
    value
}

/// A cursor that stands in the second half of a cell is aligned to the end of
/// the cell.
pub proof fn lemma_cell_end(pos: nat, start: nat)
    requires
        start % 64 == 0,
        start + 64 < pos <= start + 128,
    ensures
        align_up(pos, 64) == start + 128,
{
    let q = start / 64;
    assert(start == q * 64);
    if pos == start + 128 {
        assert(pos == (q + 2) * 64);
        assert(pos % 64 == 0);
    } else {
        assert(pos / 64 == q + 1);
        assert(pos % 64 == pos - (q + 1) * 64);
    }
}

/// The encoder that holds the message of `value` in `buffer`: the region of
/// the value at the start, and what the value has in further regions behind
/// it.
pub open spec fn spec_message<T: MojomPointer>(value: &T, buffer: Seq<u8>) -> EncoderView {
    let start = EncoderView { buffer, end: 0, handles: Seq::empty(), regions: 0 };
    let filled = value.spec_encode_value(
        start.reserve(value.spec_serialized_size()),
        fresh_region(
            DataHeader {
                size: value.spec_serialized_size() as usize,
                data: value.spec_header_data(),
            },
            0,
        ),
    );
    filled.0.store(filled.1)
}

/// The decoder of a message with nothing claimed yet.
pub open spec fn spec_decoder(buffer: Seq<u8>, handles: Seq<UntypedHandle>) -> DecoderView {
    DecoderView {
        buffer,
        top: 0,
        states: Seq::empty(),
        handles: handles.map_values(|h: UntypedHandle| Some(h)),
    }
}

/// The value that a message holds: what its first region holds, if that
/// region can be claimed.
pub open spec fn spec_deserialize<T: MojomPointer>(
    buffer: Seq<u8>,
    handles: Seq<UntypedHandle>,
) -> Decoded<T::V> {
    if spec_decoder(buffer, handles).claim_refused(0) {
        Decoded::Invalid(ValidationError::IllegalPointer)
    } else {
        T::spec_decode_value(
            spec_decoder(buffer, handles).claimed(0),
            Context { id: 0, offset: 0, is_union: false },
        )
    }
}

/// A struct: the type of the values that are messages of their own.
pub trait MojomStruct: MojomPointer + MojomEncodable {
    /// Writes the value as a message into `buffer`, from its start on, and
    /// returns the handles of the message. The message takes as many bytes
    /// as `compute_size` counts; the rest of the buffer stays.
    fn serialize(self, buffer: &mut Vec<u8>) -> (handles: Vec<UntypedHandle>)
        requires
            self.spec_encodable(false),
            self.spec_compute_size(false) <= old(buffer)@.len(),
            self.spec_handles().len() <= u32::MAX,
        ensures
            final(buffer)@.len() == old(buffer)@.len(),
            handles@.len() == self.spec_handles().len(),
            self.spec_canonical() ==> final(buffer)@ == spec_message(&self, old(buffer)@).buffer,
            self.spec_canonical() ==> handles@ == self.spec_handles(),
    {
        let mut taken: Vec<u8> = Vec::new();
        core::mem::swap(buffer, &mut taken);
        let mut encoder = Encoder::new(taken);
        let ghost value = self;
        // The root is not referred to by pointer: its offset is not needed.
        let _ = self.encode_new(&mut encoder, Context::default());
        let (mut bytes, handles) = encoder.unwrap();
        core::mem::swap(buffer, &mut bytes);
        proof {
            assert(value.spec_canonical() ==> handles@ =~= value.spec_handles());
        }
        handles
    }

    /// Writes the value as a message into a buffer of its own, which is as
    /// long as `compute_size` counts.
    fn auto_serialize(self) -> (message: (Vec<u8>, Vec<UntypedHandle>))
        requires
            self.spec_encodable(false),
            self.spec_compute_size(false) <= usize::MAX,
            self.spec_handles().len() <= u32::MAX,
        ensures
            message.0@.len() == self.spec_compute_size(false),
            message.1@.len() == self.spec_handles().len(),
            self.spec_canonical() ==> message.0@ == spec_message(
                &self,
                crate::cursor::zeros(self.spec_compute_size(false)),
            ).buffer,
            self.spec_canonical() ==> message.1@ == self.spec_handles(),
    {
        let size = self.compute_size(Context::default());
        let mut buf = zeroed(size);
        let handles = self.serialize(&mut buf);
        (buf, handles)
    }

    /// Reads a value from a message.
    fn deserialize(buffer: &[u8], handles: Vec<UntypedHandle>) -> (value: Result<
        Self,
        ValidationError,
    >)
        requires
            !(spec_deserialize::<Self>(buffer@, handles@) is Undefined),
        ensures
            match value {
                Ok(v) => {
                    &&& spec_deserialize::<Self>(buffer@, handles@) is Value
                    &&& spec_deserialize::<Self>(buffer@, handles@)->Value_1 == v.deep_view()
                },
                Err(e) => spec_deserialize::<Self>(buffer@, handles@) == Decoded::<
                    Self::V,
                >::Invalid(e),
            },
    {
        let mut decoder = Decoder::new(buffer, handles);
        Self::decode_new(&mut decoder, Context::default(), 0)
    }
}

/// The bits that a union takes in the region of its parent: a cell in
/// place, or a pointer where the parent is a union itself.
pub open spec fn spec_union_embed_size(is_union: bool) -> nat {
    if is_union {
        64
    } else {
        128
    }
}

/// The bytes that a union takes in regions of its own: what its member
/// takes there, and its cell where the parent is a union itself.
pub open spec fn spec_union_compute_size<T: MojomUnion>(value: &T, is_union: bool) -> nat {
    if is_union {
        16 + value.spec_compute_size(false)
    } else {
        value.spec_compute_size(false)
    }
}

/// The encoder and the region after a union was written as the context
/// asks: by pointer under a union mark, in place else.
pub open spec fn spec_encode_union<T: MojomUnion>(
    value: &T,
    encoder: EncoderView,
    state: Cursor,
    is_union: bool,
) -> (EncoderView, Cursor) {
    if is_union {
        spec_encode_union_nested(value, encoder, state)
    } else {
        spec_encode_union_inline(value, encoder, state, is_union)
    }
}

/// The union that is read as the context asks: behind a pointer under a
/// union mark, in place else.
pub open spec fn spec_decode_union<T: MojomUnion>(decoder: DecoderView, context: Context) -> Decoded<
    T::V,
> {
    if context.is_union {
        spec_decode_union_nested::<T>(decoder, context)
    } else {
        spec_decode_union_inline::<T>(decoder, context)
    }
}

/// The bits that a union takes in the region of its parent.
pub fn union_embed_size(context: &Context) -> (bits: Bits)
    ensures
        bits.0 == spec_union_embed_size(context.is_union),
        layout_of(MojomType::Union, context.is_union, 64, bits.0 as nat),
{
    if context.is_union() {
        Bits(crate::bits::UNION_NESTED_EMBED_SIZE)
    } else {
        Bits(crate::bits::UNION_INLINE_EMBED_SIZE)
    }
}

/// Writes a union as the context asks: by pointer where the region is the
/// cell of a union, in place else.
pub fn encode_union<T: MojomUnion>(
    val: T,
    encoder: &mut Encoder,
    state: &mut EncodingState,
    context: Context,
)
    requires
        val.spec_encodable(context.is_union),
        old(encoder).wf(),
        old(state).wf(),
        encode_ready(
            old(encoder)@,
            old(state)@,
            64,
            spec_union_embed_size(context.is_union),
            spec_union_compute_size(&val, context.is_union),
            val.spec_handles().len(),
        ),
    ensures
        final(encoder).wf(),
        final(state).wf(),
        encode_step(
            old(encoder)@,
            old(state)@,
            final(encoder)@,
            final(state)@,
            64,
            spec_union_embed_size(context.is_union),
            spec_union_compute_size(&val, context.is_union),
            val.spec_handles().len(),
        ),
        val.spec_canonical() ==> (final(encoder)@, final(state)@) == spec_encode_union(
            &val,
            old(encoder)@,
            old(state)@,
            context.is_union,
        ),
        val.spec_canonical() ==> final(encoder)@.handles == old(encoder)@.handles
            + val.spec_handles(),
{
    if context.is_union() {
        encode_union_nested(val, encoder, state, context)
    } else {
        encode_union_inline(val, encoder, state, context)
    }
}

/// Reads a union as the context asks: behind a pointer where the region is
/// the cell of a union, in place else.
pub fn decode_union<T: MojomUnion>(decoder: &mut Decoder, context: Context) -> (value: Result<
    T,
    ValidationError,
>)
    requires
        old(decoder).wf(),
        old(decoder)@.has(context),
        old(decoder)@.state(context).fits(64, spec_union_embed_size(context.is_union)),
        !(spec_decode_union::<T>(old(decoder)@, context) is Undefined),
    ensures
        final(decoder).wf(),
        decode_kept(old(decoder)@, final(decoder)@),
        match value {
            Ok(v) => {
                &&& spec_decode_union::<T>(old(decoder)@, context) == Decoded::Value(
                    final(decoder)@,
                    v.deep_view(),
                )
                &&& decode_step(
                    old(decoder)@,
                    final(decoder)@,
                    context,
                    64,
                    spec_union_embed_size(context.is_union),
                )
            },
            Err(e) => spec_decode_union::<T>(old(decoder)@, context) == Decoded::<T::V>::Invalid(e),
        },
{
    if context.is_union() {
        decode_union_nested(decoder, context)
    } else {
        decode_union_inline(decoder, context)
    }
}

} // verus!
