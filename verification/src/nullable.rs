//! Values that may be absent. An absent value lies in the region of its
//! parent as the null value of its category: the null pointer, the null
//! union, the null handle or the null interface. Simple values have no null
//! value, and cannot be absent.

use crate::bits::{align_up, lemma_align_up, lemma_align_up_fixed, Bits};
use crate::cursor::{lemma_put_skip, zeros, Cursor};
use crate::decoding::{Decoder, DecoderView, ValidationError};
use crate::encoding::{Context, Encoder, EncoderView, EncodingState};
use crate::laws::{lemma_put, lemma_same_bytes, reads_back, same_below, MojomLaws, MojomPresent};
use crate::mojom::{layout_of, Decoded, MojomEncodable, MojomType, MojomValue};
use crate::numeric::MojomNumeric;
use crate::system::UntypedHandle;
use vstd::prelude::*;

verus! {

/// The bytes of the null value of a category. The null union is a pointer
/// where the parent is a union itself.
pub open spec fn null_bytes(category: MojomType, is_union: bool) -> Seq<u8> {
    match category {
        MojomType::Simple => Seq::empty(),
        MojomType::Pointer => 0u64.spec_wire_bytes(),
        MojomType::Union => if is_union {
            0u64.spec_wire_bytes()
        } else {
            zeros(16)
        },
        MojomType::Handle => u32::MAX.spec_wire_bytes(),
        MojomType::Interface => u32::MAX.spec_wire_bytes() + 0u32.spec_wire_bytes(),
    }
}

/// The alignment in bytes of the values of a category that has a null value.
pub open spec fn null_width(category: MojomType) -> nat {
    match category {
        MojomType::Simple => 1,
        MojomType::Pointer => 8,
        MojomType::Union => 8,
        MojomType::Handle => 4,
        MojomType::Interface => 4,
    }
}

/// Whether the null value of a category stands under the cursor: a pointer
/// of 0, a union cell of zeros, or the handle index `u32::MAX`, alone or in
/// an interface.
pub open spec fn null_ahead(category: MojomType, is_union: bool, state: Cursor) -> bool {
    match category {
        MojomType::Simple => false,
        MojomType::Pointer => u64::spec_from_wire_bytes(state.peek(8, 8)) == 0,
        MojomType::Union => if is_union {
            u64::spec_from_wire_bytes(state.peek(8, 8)) == 0
        } else {
            state.peek(8, 16) == zeros(16)
        },
        MojomType::Handle => u32::spec_from_wire_bytes(state.peek(4, 4)) == u32::MAX,
        MojomType::Interface => u32::spec_from_wire_bytes(state.peek(4, 4)) == u32::MAX,
    }
}

/// What the null values are long.
pub proof fn lemma_null_bytes(category: MojomType, is_union: bool, align_bits: nat, bits: nat)
    requires
        category != MojomType::Simple,
        layout_of(category, is_union, align_bits, bits),
    ensures
        align_bits == 8 * null_width(category),
        bits == 8 * null_bytes(category, is_union).len(),
{
    0u64.lemma_wire_bytes();
    u32::MAX.lemma_wire_bytes();
    0u32.lemma_wire_bytes();
}

impl<T: MojomEncodable> MojomValue for Option<T> {
    open spec fn spec_mojom_type() -> MojomType {
        T::spec_mojom_type()
    }

    open spec fn spec_align_bits() -> nat {
        T::spec_align_bits()
    }

    open spec fn spec_embed_size(is_union: bool) -> nat {
        T::spec_embed_size(is_union)
    }

    open spec fn spec_compute_size(&self, is_union: bool) -> nat {
        match self {
            Some(value) => value.spec_compute_size(is_union),
            None => 0,
        }
    }

    open spec fn spec_handles(&self) -> Seq<UntypedHandle> {
        match self {
            Some(value) => value.spec_handles(),
            None => Seq::empty(),
        }
    }

    open spec fn spec_encodable(&self, is_union: bool) -> bool {
        &&& T::spec_mojom_type() != MojomType::Simple
        &&& match self {
            Some(value) => value.spec_encodable(is_union),
            None => true,
        }
    }

    open spec fn spec_canonical(&self) -> bool {
        match self {
            Some(value) => value.spec_canonical(),
            None => true,
        }
    }
}

impl<T: MojomEncodable> MojomEncodable for Option<T> {
    open spec fn spec_encode(&self, encoder: EncoderView, state: Cursor, is_union: bool) -> (
        EncoderView,
        Cursor,
    ) {
        match self {
            Some(value) => value.spec_encode(encoder, state, is_union),
            None => (
                encoder,
                state.put(
                    null_width(T::spec_mojom_type()),
                    null_bytes(T::spec_mojom_type(), is_union),
                ),
            ),
        }
    }

    open spec fn spec_decode(decoder: DecoderView, context: Context) -> Decoded<Option<T::V>> {
        let state = decoder.state(context);
        if T::spec_mojom_type() == MojomType::Simple {
            Decoded::Undefined
        } else if null_ahead(T::spec_mojom_type(), context.is_union, state) {
            Decoded::Value(
                decoder.with_state(
                    context.id as int,
                    state.skip(
                        null_width(T::spec_mojom_type()),
                        null_bytes(T::spec_mojom_type(), context.is_union).len(),
                    ),
                ),
                None,
            )
        } else {
            match T::spec_decode(
                decoder.with_state(context.id as int, state.aligned(T::spec_align_bits())),
                context,
            ) {
                Decoded::Value(after, v) => Decoded::Value(after, Some(v)),
                Decoded::Invalid(e) => Decoded::Invalid(e),
                Decoded::Undefined => Decoded::Undefined,
            }
        }
    }

    fn mojom_type() -> (category: MojomType) {
        T::mojom_type()
    }

    fn mojom_alignment() -> (alignment: usize) {
        T::mojom_alignment()
    }

    fn embed_size(context: &Context) -> (bits: Bits) {
        T::embed_size(context)
    }

    fn compute_size(&self, context: Context) -> (size: usize) {
        match self {
            Some(value) => value.compute_size(context),
            None => 0,
        }
    }

    fn encode(self, encoder: &mut Encoder, state: &mut EncodingState, context: Context) {
        match self {
            Some(value) => value.encode(encoder, state, context),
            None => {
                let bits = T::embed_size(&context);
                proof {
                    lemma_null_bytes(
                        T::spec_mojom_type(),
                        context.is_union,
                        T::spec_align_bits(),
                        bits.0 as nat,
                    );
                    lemma_put_skip(
                        state@,
                        null_width(T::spec_mojom_type()),
                        null_bytes(T::spec_mojom_type(), context.is_union),
                    );
                }
                match T::mojom_type() {
                    MojomType::Pointer => state.encode_null_pointer(),
                    MojomType::Union => {
                        if context.is_union() {
                            state.encode_null_pointer()
                        } else {
                            state.encode_null_union()
                        }
                    },
                    MojomType::Handle => state.encode_null_handle(),
                    MojomType::Interface => state.encode_null_interface(),
                    MojomType::Simple => {},
                }
            },
        }
    }

    fn decode(decoder: &mut Decoder, context: Context) -> (value: Result<Self, ValidationError>) {
        let bits = T::embed_size(&context);
        let category = T::mojom_type();
        proof {
            lemma_null_bytes(category, context.is_union, T::spec_align_bits(), bits.0 as nat);
            lemma_put_skip(
                decoder@.state(context),
                null_width(category),
                null_bytes(category, context.is_union),
            );
            lemma_align_up(decoder@.state(context).pos, T::spec_align_bits());
            lemma_align_up_fixed(
                align_up(decoder@.state(context).pos, T::spec_align_bits()),
                T::spec_align_bits(),
            );
        }
        let state = decoder.get_mut(&context);
        let skipped = match category {
            MojomType::Pointer => state.skip_if_null_pointer(),
            MojomType::Union => {
                if context.is_union() {
                    state.skip_if_null_pointer()
                } else {
                    state.skip_if_null_union()
                }
            },
            MojomType::Handle => state.skip_if_null_handle(),
            MojomType::Interface => state.skip_if_null_interface(),
            MojomType::Simple => false,
        };
        if skipped {
            Ok(None)
        } else {
            match T::decode(decoder, context) {
                Ok(value) => Ok(Some(value)),
                Err(err) => Err(err),
            }
        }
    }
}

/// The null value of a category is read as such where it was written.
#[verifier::rlimit(40)]
pub proof fn lemma_null_round_trip(
    category: MojomType,
    is_union: bool,
    state: Cursor,
    reader: Cursor,
)
    requires
        category != MojomType::Simple,
        state.wf(),
        state.fits(8 * null_width(category), 8 * null_bytes(category, is_union).len()),
        reader.pos == state.pos || reader.pos == align_up(state.pos, 8 * null_width(category)),
        same_below(
            reader.data,
            state.put(null_width(category), null_bytes(category, is_union)).data,
            state.put(null_width(category), null_bytes(category, is_union)).pos,
        ),
    ensures
        null_ahead(category, is_union, reader),
        reader.skip(null_width(category), null_bytes(category, is_union).len()).pos == state.put(
            null_width(category),
            null_bytes(category, is_union),
        ).pos,
{
    let width = null_width(category);
    let bytes = null_bytes(category, is_union);
    0u64.lemma_wire_bytes();
    u32::MAX.lemma_wire_bytes();
    0u32.lemma_wire_bytes();
    lemma_put(state, width, bytes);
    crate::cursor::lemma_at(reader, width);
    crate::cursor::lemma_at(state, width);
    assert(reader.at(width) == state.at(width));
    lemma_same_bytes(reader.data, state.put(width, bytes).data, state.at(width), bytes.len());
    assert(reader.peek(width, bytes.len()) == bytes);
    if category == MojomType::Interface {
        assert(reader.peek(4, 4) =~= bytes.subrange(0, 4));
        assert(bytes.subrange(0, 4) =~= u32::MAX.spec_wire_bytes());
    }
}

/// What is read where a value that is there was written is not the null
/// value of its category.
#[verifier::rlimit(40)]
pub proof fn lemma_present_read(
    category: MojomType,
    is_union: bool,
    state: Cursor,
    written: Seq<u8>,
    end: nat,
    reader: Cursor,
)
    requires
        category != MojomType::Simple,
        state.wf(),
        written.len() == state.data.len(),
        state.fits(8 * null_width(category), 8 * null_bytes(category, is_union).len()),
        end == state.after(8 * null_width(category), 8 * null_bytes(category, is_union).len()),
        reader.pos == state.pos || reader.pos == align_up(state.pos, 8 * null_width(category)),
        same_below(reader.data, written, end),
        !null_ahead(category, is_union, Cursor { data: written, ..state }),
    ensures
        !null_ahead(category, is_union, reader),
{
    let width = null_width(category);
    let n = null_bytes(category, is_union).len();
    0u64.lemma_wire_bytes();
    u32::MAX.lemma_wire_bytes();
    0u32.lemma_wire_bytes();
    let there = Cursor { data: written, ..state };
    crate::cursor::lemma_at(reader, width);
    crate::cursor::lemma_at(state, width);
    crate::bits::lemma_align_up(state.pos, 8 * width);
    crate::bits::lemma_align_up_fixed(align_up(state.pos, 8 * width), 8 * width);
    assert(reader.at(width) == state.at(width));
    assert(there.at(width) == state.at(width));
    lemma_same_bytes(reader.data, written, state.at(width), n);
    assert(reader.peek(width, n) == there.peek(width, n));
    if category == MojomType::Interface {
        assert(reader.peek(4, 4) =~= reader.peek(4, 8).subrange(0, 4));
        assert(there.peek(4, 4) =~= there.peek(4, 8).subrange(0, 4));
    }
}

impl<T: MojomPresent> MojomLaws for Option<T> {
    proof fn lemma_layout(is_union: bool) {
        T::lemma_layout(is_union);
    }

    proof fn lemma_encode(&self, encoder: EncoderView, state: Cursor, is_union: bool) {
        T::lemma_layout(is_union);
        match self {
            Some(value) => {
                value.lemma_encode(encoder, state, is_union);
            },
            None => {
                lemma_null_bytes(
                    T::spec_mojom_type(),
                    is_union,
                    T::spec_align_bits(),
                    T::spec_embed_size(is_union),
                );
                lemma_put(
                    state,
                    null_width(T::spec_mojom_type()),
                    null_bytes(T::spec_mojom_type(), is_union),
                );
                assert(encoder.handles + Seq::<UntypedHandle>::empty() =~= encoder.handles);
            },
        }
    }

    proof fn lemma_round_trip(
        &self,
        encoder: EncoderView,
        state: Cursor,
        decoder: DecoderView,
        context: Context,
    ) {
        let category = T::spec_mojom_type();
        let is_union = context.is_union;
        T::lemma_layout(is_union);
        lemma_null_bytes(category, is_union, T::spec_align_bits(), T::spec_embed_size(is_union));
        let reader = decoder.state(context);
        match self {
            Some(value) => {
                value.lemma_encode(encoder, state, is_union);
                value.lemma_present(encoder, state, is_union);
                let written = value.spec_encode(encoder, state, is_union);
                lemma_present_read(category, is_union, state, written.1.data, written.1.pos, reader);
                let aligned = decoder.with_state(
                    context.id as int,
                    reader.aligned(T::spec_align_bits()),
                );
                crate::bits::lemma_align_up(state.pos, T::spec_align_bits());
                crate::bits::lemma_align_up_fixed(
                    align_up(state.pos, T::spec_align_bits()),
                    T::spec_align_bits(),
                );
                assert(reads_back(encoder, state, written, aligned, context, T::spec_align_bits()))
                    by {
                    assert forall|i: int|
                        encoder.handles.len() <= i < written.0.handles.len() implies #[trigger] aligned.handles[i]
                        == Some(written.0.handles[i]) by {
                        assert(decoder.handles[i] == Some(written.0.handles[i]));
                    }
                }
                value.lemma_round_trip(encoder, state, aligned, context);
                let after = T::spec_decode(aligned, context)->Value_0;
                assert forall|i: int|
                    0 <= i < decoder.states.len() && i != context.id implies #[trigger] after.states[i]
                    == decoder.states[i] by {
                    assert(aligned.states[i] == decoder.states[i]);
                }
            },
            None => {
                lemma_put(state, null_width(category), null_bytes(category, is_union));
                lemma_null_round_trip(category, is_union, state, reader);
                let after = Self::spec_decode(decoder, context)->Value_0;
                assert(after.handles =~= decoder.handles);
            },
        }
    }
}

impl<T: crate::laws::MojomTotal + MojomPresent> crate::laws::MojomTotal for Option<T> {
    proof fn lemma_defined(decoder: DecoderView, context: Context) {
        T::lemma_not_simple();
        T::lemma_defined(
            decoder.with_state(
                context.id as int,
                decoder.state(context).aligned(T::spec_align_bits()),
            ),
            context,
        );
    }
}

} // verus!
