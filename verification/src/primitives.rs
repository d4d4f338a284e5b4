//! The values that lie in the region of their parent as they are: the
//! integers, and the booleans, which are packed bit by bit.

use crate::bits::Bits;
use crate::cursor::{lemma_put_skip, Cursor};
use crate::decoding::{Decoder, DecoderView, ValidationError};
use crate::encoding::{Context, Encoder, EncoderView, EncodingState};
use crate::mojom::{Decoded, MojomEncodable, MojomType, MojomValue};
use crate::numeric::MojomNumeric;
use crate::system::UntypedHandle;
use vstd::prelude::*;

verus! {

impl<T: MojomNumeric> MojomValue for T {
    open spec fn spec_mojom_type() -> MojomType {
        MojomType::Simple
    }

    open spec fn spec_align_bits() -> nat {
        8 * T::spec_width()
    }

    open spec fn spec_embed_size(is_union: bool) -> nat {
        8 * T::spec_width()
    }

    open spec fn spec_compute_size(&self, is_union: bool) -> nat {
        0
    }

    open spec fn spec_handles(&self) -> Seq<UntypedHandle> {
        Seq::empty()
    }

    open spec fn spec_encodable(&self, is_union: bool) -> bool {
        true
    }

    open spec fn spec_canonical(&self) -> bool {
        true
    }
}

impl<T: MojomNumeric> MojomEncodable for T {
    open spec fn spec_encode(&self, encoder: EncoderView, state: Cursor, is_union: bool) -> (
        EncoderView,
        Cursor,
    ) {
        (encoder, state.put(T::spec_width(), self.spec_wire_bytes()))
    }

    open spec fn spec_decode(decoder: DecoderView, context: Context) -> Decoded<T::V> {
        Decoded::Value(
            decoder.with_state(
                context.id as int,
                decoder.state(context).skip(T::spec_width(), T::spec_width()),
            ),
            T::spec_from_wire_bytes(
                decoder.state(context).peek(T::spec_width(), T::spec_width()),
            ).deep_view(),
        )
    }

    fn mojom_type() -> (category: MojomType) {
        MojomType::Simple
    }

    fn mojom_alignment() -> (alignment: usize) {
        T::width()
    }

    fn embed_size(context: &Context) -> (bits: Bits) {
        Bits(8 * T::width())
    }

    fn compute_size(&self, context: Context) -> (size: usize) {
        0
    }

    fn encode(self, encoder: &mut Encoder, state: &mut EncodingState, context: Context) {
        proof {
            self.lemma_wire_bytes();
            lemma_put_skip(state@, T::spec_width(), self.spec_wire_bytes());
        }
        state.encode(self);
    }

    fn decode(decoder: &mut Decoder, context: Context) -> (value: Result<Self, ValidationError>) {
        let width = T::width();
        proof {
            lemma_put_skip(
                decoder@.state(context),
                T::spec_width(),
                Seq::new(T::spec_width(), |i: int| 0u8),
            );
        }
        let state = decoder.get_mut(&context);
        Ok(state.decode::<T>())
    }
}

impl MojomValue for bool {
    open spec fn spec_mojom_type() -> MojomType {
        MojomType::Simple
    }

    open spec fn spec_align_bits() -> nat {
        1
    }

    open spec fn spec_embed_size(is_union: bool) -> nat {
        1
    }

    open spec fn spec_compute_size(&self, is_union: bool) -> nat {
        0
    }

    open spec fn spec_handles(&self) -> Seq<UntypedHandle> {
        Seq::empty()
    }

    open spec fn spec_encodable(&self, is_union: bool) -> bool {
        true
    }

    open spec fn spec_canonical(&self) -> bool {
        true
    }
}

impl MojomEncodable for bool {
    open spec fn spec_encode(&self, encoder: EncoderView, state: Cursor, is_union: bool) -> (
        EncoderView,
        Cursor,
    ) {
        (encoder, state.put_bit(*self))
    }

    open spec fn spec_decode(decoder: DecoderView, context: Context) -> Decoded<bool> {
        Decoded::Value(
            decoder.with_state(context.id as int, decoder.state(context).skip_bit()),
            decoder.state(context).peek_bit(),
        )
    }

    fn mojom_type() -> (category: MojomType) {
        MojomType::Simple
    }

    /// Booleans are packed bit by bit and have no alignment in bytes: this
    /// is never to be called.
    fn mojom_alignment() -> (alignment: usize) {
        1
    }

    fn embed_size(context: &Context) -> (bits: Bits) {
        Bits(1)
    }

    fn compute_size(&self, context: Context) -> (size: usize) {
        0
    }

    fn encode(self, encoder: &mut Encoder, state: &mut EncodingState, context: Context) {
        state.encode_bool(self);
    }

    fn decode(decoder: &mut Decoder, context: Context) -> (value: Result<Self, ValidationError>) {
        let state = decoder.get_mut(&context);
        Ok(state.decode_bool())
    }
}

} // verus!
