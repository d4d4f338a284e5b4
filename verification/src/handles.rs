//! Handles and interfaces in a message: a handle lies in the region of its
//! parent as its index in the handle vector, an interface as the index of
//! the handle of its message pipe and its version.

use crate::bits::Bits;
use crate::cursor::{lemma_put_skip, Cursor};
use crate::data::HandleRef;
use crate::decoding::{Decoder, DecoderView, ValidationError};
use crate::encoding::{Context, Encoder, EncoderView, EncodingState};
use crate::laws::{
    encoder_wf, lemma_put, lemma_same_bytes, read_back, reads_back, MojomLaws, MojomPresent,
};
use crate::mojom::{
    decode_kept, decode_step, encode_ready, encode_step, Decoded, MojomEncodable, MojomType,
    MojomValue,
};
use crate::numeric::MojomNumeric;
use crate::system::{
    CastHandle, Consumer, Handle, MessageEndpoint, Producer, SharedBuffer, UntypedHandle,
};
use vstd::prelude::*;

verus! {

/// A handle that can be sent in a message.
pub trait MojomHandle: CastHandle + MojomEncodable {

}

impl<T: MojomEncodable + CastHandle + Handle> MojomHandle for T {

}

/// The encoder and the region after a handle was written: the handle at the
/// end of the handle vector, and its index under the cursor.
pub open spec fn spec_encode_handle(handle: UntypedHandle, encoder: EncoderView, state: Cursor) -> (
    EncoderView,
    Cursor,
) {
    (
        encoder.with_handle(handle),
        state.put(4, (encoder.handles.len() as u32).spec_wire_bytes()),
    )
}

/// The handle whose index stands under the cursor of the region of
/// `context`, taken as a handle of type `H`. The null handle is refused, and
/// so is an index that cannot be claimed.
pub open spec fn spec_decode_handle<H: CastHandle>(decoder: DecoderView, context: Context) -> Decoded<
    H,
> {
    let index = u32::spec_from_wire_bytes(decoder.state(context).peek(4, 4));
    let moved = decoder.with_state(context.id as int, decoder.state(context).skip(4, 4));
    if index == u32::MAX {
        Decoded::Invalid(ValidationError::UnexpectedNullPointer)
    } else if moved.handle_refused::<H>(index as nat) {
        Decoded::Invalid(ValidationError::IllegalHandle)
    } else {
        Decoded::Value(
            moved.without_handle(index as nat),
            H::spec_from_untyped(moved.handles[index as int].unwrap()),
        )
    }
}

/// Writes a handle: gives it to the encoder, and writes its index in the
/// handle vector under the cursor of `state`.
pub fn encode_handle<H: CastHandle>(handle: H, encoder: &mut Encoder, state: &mut EncodingState)
    requires
        old(encoder).wf(),
        old(state).wf(),
        encode_ready(old(encoder)@, old(state)@, 32, 32, 0, 1),
    ensures
        final(encoder).wf(),
        final(state).wf(),
        encode_step(old(encoder)@, old(state)@, final(encoder)@, final(state)@, 32, 32, 0, 1),
        (final(encoder)@, final(state)@) == spec_encode_handle(
            handle.spec_untyped(),
            old(encoder)@,
            old(state)@,
        ),
        final(encoder)@.handles == old(encoder)@.handles + seq![handle.spec_untyped()],
{
    let pos = encoder.add_handle(handle.as_untyped());
    let reference = HandleRef { index: pos };
    proof {
        pos.lemma_wire_bytes();
        lemma_put_skip(state@, 4, pos.spec_wire_bytes());
        assert(encoder@.handles =~= old(encoder)@.handles + seq![handle.spec_untyped()]);
    }
    state.encode(reference.index);
}

/// Reads a handle: the index under the cursor of the region of `context`,
/// then the handle that the decoder holds there.
pub fn decode_handle<H: CastHandle>(decoder: &mut Decoder, context: Context) -> (handle: Result<
    H,
    ValidationError,
>)
    requires
        old(decoder).wf(),
        old(decoder)@.has(context),
        old(decoder)@.state(context).fits(32, 32),
    ensures
        final(decoder).wf(),
        decode_kept(old(decoder)@, final(decoder)@),
        match handle {
            Ok(h) => {
                &&& spec_decode_handle::<H>(old(decoder)@, context) == Decoded::Value(
                    final(decoder)@,
                    h,
                )
                &&& decode_step(old(decoder)@, final(decoder)@, context, 32, 32)
            },
            Err(e) => spec_decode_handle::<H>(old(decoder)@, context) == Decoded::<H>::Invalid(e),
        },
{
    proof {
        0u32.lemma_wire_bytes();
        lemma_put_skip(decoder@.state(context), 4, 0u32.spec_wire_bytes());
    }
    let state = decoder.get_mut(&context);
    let reference = HandleRef { index: state.decode::<u32>() };
    if reference.is_null() {
        return Err(ValidationError::UnexpectedNullPointer);
    }
    decoder.claim_handle::<H>(reference.index)
}

impl MojomValue for UntypedHandle {
    open spec fn spec_mojom_type() -> MojomType {
        MojomType::Handle
    }

    open spec fn spec_align_bits() -> nat {
        32
    }

    open spec fn spec_embed_size(is_union: bool) -> nat {
        32
    }

    open spec fn spec_compute_size(&self, is_union: bool) -> nat {
        0
    }

    open spec fn spec_handles(&self) -> Seq<UntypedHandle> {
        seq![self.spec_untyped()]
    }

    open spec fn spec_encodable(&self, is_union: bool) -> bool {
        true
    }

    open spec fn spec_canonical(&self) -> bool {
        true
    }
}

impl MojomEncodable for UntypedHandle {
    open spec fn spec_encode(&self, encoder: EncoderView, state: Cursor, is_union: bool) -> (
        EncoderView,
        Cursor,
    ) {
        spec_encode_handle(self.spec_untyped(), encoder, state)
    }

    open spec fn spec_decode(decoder: DecoderView, context: Context) -> Decoded<UntypedHandle> {
        spec_decode_handle::<UntypedHandle>(decoder, context)
    }

    fn mojom_type() -> (category: MojomType) {
        MojomType::Handle
    }

    fn mojom_alignment() -> (alignment: usize) {
        4
    }

    fn embed_size(context: &Context) -> (bits: Bits) {
        Bits(32)
    }

    fn compute_size(&self, context: Context) -> (size: usize) {
        0
    }

    fn encode(self, encoder: &mut Encoder, state: &mut EncodingState, context: Context) {
        encode_handle(self, encoder, state)
    }

    fn decode(decoder: &mut Decoder, context: Context) -> (value: Result<Self, ValidationError>) {
        decode_handle::<UntypedHandle>(decoder, context)
    }
}

impl MojomValue for MessageEndpoint {
    open spec fn spec_mojom_type() -> MojomType {
        MojomType::Handle
    }

    open spec fn spec_align_bits() -> nat {
        32
    }

    open spec fn spec_embed_size(is_union: bool) -> nat {
        32
    }

    open spec fn spec_compute_size(&self, is_union: bool) -> nat {
        0
    }

    open spec fn spec_handles(&self) -> Seq<UntypedHandle> {
        seq![self.spec_untyped()]
    }

    open spec fn spec_encodable(&self, is_union: bool) -> bool {
        true
    }

    open spec fn spec_canonical(&self) -> bool {
        true
    }
}

impl MojomEncodable for MessageEndpoint {
    open spec fn spec_encode(&self, encoder: EncoderView, state: Cursor, is_union: bool) -> (
        EncoderView,
        Cursor,
    ) {
        spec_encode_handle(self.spec_untyped(), encoder, state)
    }

    open spec fn spec_decode(decoder: DecoderView, context: Context) -> Decoded<MessageEndpoint> {
        spec_decode_handle::<MessageEndpoint>(decoder, context)
    }

    fn mojom_type() -> (category: MojomType) {
        MojomType::Handle
    }

    fn mojom_alignment() -> (alignment: usize) {
        4
    }

    fn embed_size(context: &Context) -> (bits: Bits) {
        Bits(32)
    }

    fn compute_size(&self, context: Context) -> (size: usize) {
        0
    }

    fn encode(self, encoder: &mut Encoder, state: &mut EncodingState, context: Context) {
        encode_handle(self, encoder, state)
    }

    fn decode(decoder: &mut Decoder, context: Context) -> (value: Result<Self, ValidationError>) {
        decode_handle::<MessageEndpoint>(decoder, context)
    }
}

impl MojomValue for SharedBuffer {
    open spec fn spec_mojom_type() -> MojomType {
        MojomType::Handle
    }

    open spec fn spec_align_bits() -> nat {
        32
    }

    open spec fn spec_embed_size(is_union: bool) -> nat {
        32
    }

    open spec fn spec_compute_size(&self, is_union: bool) -> nat {
        0
    }

    open spec fn spec_handles(&self) -> Seq<UntypedHandle> {
        seq![self.spec_untyped()]
    }

    open spec fn spec_encodable(&self, is_union: bool) -> bool {
        true
    }

    open spec fn spec_canonical(&self) -> bool {
        true
    }
}

impl MojomEncodable for SharedBuffer {
    open spec fn spec_encode(&self, encoder: EncoderView, state: Cursor, is_union: bool) -> (
        EncoderView,
        Cursor,
    ) {
        spec_encode_handle(self.spec_untyped(), encoder, state)
    }

    open spec fn spec_decode(decoder: DecoderView, context: Context) -> Decoded<SharedBuffer> {
        spec_decode_handle::<SharedBuffer>(decoder, context)
    }

    fn mojom_type() -> (category: MojomType) {
        MojomType::Handle
    }

    fn mojom_alignment() -> (alignment: usize) {
        4
    }

    fn embed_size(context: &Context) -> (bits: Bits) {
        Bits(32)
    }

    fn compute_size(&self, context: Context) -> (size: usize) {
        0
    }

    fn encode(self, encoder: &mut Encoder, state: &mut EncodingState, context: Context) {
        encode_handle(self, encoder, state)
    }

    fn decode(decoder: &mut Decoder, context: Context) -> (value: Result<Self, ValidationError>) {
        decode_handle::<SharedBuffer>(decoder, context)
    }
}

impl MojomValue for Consumer {
    open spec fn spec_mojom_type() -> MojomType {
        MojomType::Handle
    }

    open spec fn spec_align_bits() -> nat {
        32
    }

    open spec fn spec_embed_size(is_union: bool) -> nat {
        32
    }

    open spec fn spec_compute_size(&self, is_union: bool) -> nat {
        0
    }

    open spec fn spec_handles(&self) -> Seq<UntypedHandle> {
        seq![self.spec_untyped()]
    }

    open spec fn spec_encodable(&self, is_union: bool) -> bool {
        true
    }

    open spec fn spec_canonical(&self) -> bool {
        true
    }
}

impl MojomEncodable for Consumer {
    open spec fn spec_encode(&self, encoder: EncoderView, state: Cursor, is_union: bool) -> (
        EncoderView,
        Cursor,
    ) {
        spec_encode_handle(self.spec_untyped(), encoder, state)
    }

    open spec fn spec_decode(decoder: DecoderView, context: Context) -> Decoded<Consumer> {
        spec_decode_handle::<Consumer>(decoder, context)
    }

    fn mojom_type() -> (category: MojomType) {
        MojomType::Handle
    }

    fn mojom_alignment() -> (alignment: usize) {
        4
    }

    fn embed_size(context: &Context) -> (bits: Bits) {
        Bits(32)
    }

    fn compute_size(&self, context: Context) -> (size: usize) {
        0
    }

    fn encode(self, encoder: &mut Encoder, state: &mut EncodingState, context: Context) {
        encode_handle(self, encoder, state)
    }

    fn decode(decoder: &mut Decoder, context: Context) -> (value: Result<Self, ValidationError>) {
        decode_handle::<Consumer>(decoder, context)
    }
}

impl MojomValue for Producer {
    open spec fn spec_mojom_type() -> MojomType {
        MojomType::Handle
    }

    open spec fn spec_align_bits() -> nat {
        32
    }

    open spec fn spec_embed_size(is_union: bool) -> nat {
        32
    }

    open spec fn spec_compute_size(&self, is_union: bool) -> nat {
        0
    }

    open spec fn spec_handles(&self) -> Seq<UntypedHandle> {
        seq![self.spec_untyped()]
    }

    open spec fn spec_encodable(&self, is_union: bool) -> bool {
        true
    }

    open spec fn spec_canonical(&self) -> bool {
        true
    }
}

impl MojomEncodable for Producer {
    open spec fn spec_encode(&self, encoder: EncoderView, state: Cursor, is_union: bool) -> (
        EncoderView,
        Cursor,
    ) {
        spec_encode_handle(self.spec_untyped(), encoder, state)
    }

    open spec fn spec_decode(decoder: DecoderView, context: Context) -> Decoded<Producer> {
        spec_decode_handle::<Producer>(decoder, context)
    }

    fn mojom_type() -> (category: MojomType) {
        MojomType::Handle
    }

    fn mojom_alignment() -> (alignment: usize) {
        4
    }

    fn embed_size(context: &Context) -> (bits: Bits) {
        Bits(32)
    }

    fn compute_size(&self, context: Context) -> (size: usize) {
        0
    }

    fn encode(self, encoder: &mut Encoder, state: &mut EncodingState, context: Context) {
        encode_handle(self, encoder, state)
    }

    fn decode(decoder: &mut Decoder, context: Context) -> (value: Result<Self, ValidationError>) {
        decode_handle::<Producer>(decoder, context)
    }
}

/// Writing a handle moves the cursor behind its index and takes the handle
/// into the message, and leaves what was written before.
pub proof fn lemma_handle_encode(handle: UntypedHandle, encoder: EncoderView, state: Cursor)
    requires
        encoder_wf(encoder),
        state.wf(),
        encode_ready(encoder, state, 32, 32, 0, 1),
    ensures
        encoder_wf(spec_encode_handle(handle, encoder, state).0),
        spec_encode_handle(handle, encoder, state).1.wf(),
        encode_step(
            encoder,
            state,
            spec_encode_handle(handle, encoder, state).0,
            spec_encode_handle(handle, encoder, state).1,
            32,
            32,
            0,
            1,
        ),
        spec_encode_handle(handle, encoder, state).0.handles == encoder.handles + seq![handle],
        crate::laws::same_below(
            spec_encode_handle(handle, encoder, state).1.data,
            state.data,
            state.pos,
        ),
        spec_encode_handle(handle, encoder, state).0.buffer == encoder.buffer,
{
    let index = encoder.handles.len() as u32;
    index.lemma_wire_bytes();
    lemma_put(state, 4, index.spec_wire_bytes());
    assert(encoder.handles.push(handle) =~= encoder.handles + seq![handle]);
}

/// A handle that was written is read back as it was, and is claimed then.
pub proof fn lemma_handle_round_trip<H: CastHandle>(
    value: H,
    encoder: EncoderView,
    state: Cursor,
    decoder: DecoderView,
    context: Context,
)
    requires
        H::spec_accepts(value.spec_untyped().kind),
        H::spec_from_untyped(value.spec_untyped()) == value,
        encoder_wf(encoder),
        state.wf(),
        encode_ready(encoder, state, 32, 32, 0, 1),
        reads_back(
            encoder,
            state,
            spec_encode_handle(value.spec_untyped(), encoder, state),
            decoder,
            context,
            32,
        ),
    ensures
        spec_decode_handle::<H>(decoder, context) is Value,
        spec_decode_handle::<H>(decoder, context)->Value_1 == value,
        read_back(
            encoder,
            spec_encode_handle(value.spec_untyped(), encoder, state),
            decoder,
            context,
            spec_decode_handle::<H>(decoder, context)->Value_0,
        ),
{
    let handle = value.spec_untyped();
    lemma_handle_encode(handle, encoder, state);
    let index = encoder.handles.len() as u32;
    index.lemma_wire_bytes();
    lemma_put(state, 4, index.spec_wire_bytes());
    let written = spec_encode_handle(handle, encoder, state);
    let reader = decoder.state(context);
    crate::cursor::lemma_at(reader, 4);
    crate::cursor::lemma_at(state, 4);
    assert(reader.at(4) == state.at(4));
    lemma_same_bytes(reader.data, written.1.data, state.at(4), 4);
    assert(reader.peek(4, 4) == index.spec_wire_bytes());
    assert(decoder.handles[index as int] == Some(written.0.handles[index as int]));
    assert(written.0.handles[index as int] == handle);
}

impl MojomLaws for UntypedHandle {
    proof fn lemma_layout(is_union: bool) {
    }

    proof fn lemma_encode(&self, encoder: EncoderView, state: Cursor, is_union: bool) {
        lemma_handle_encode(self.spec_untyped(), encoder, state);
    }

    proof fn lemma_round_trip(
        &self,
        encoder: EncoderView,
        state: Cursor,
        decoder: DecoderView,
        context: Context,
    ) {
        lemma_handle_round_trip::<UntypedHandle>(*self, encoder, state, decoder, context);
    }
}

impl MojomLaws for MessageEndpoint {
    proof fn lemma_layout(is_union: bool) {
    }

    proof fn lemma_encode(&self, encoder: EncoderView, state: Cursor, is_union: bool) {
        lemma_handle_encode(self.spec_untyped(), encoder, state);
    }

    proof fn lemma_round_trip(
        &self,
        encoder: EncoderView,
        state: Cursor,
        decoder: DecoderView,
        context: Context,
    ) {
        lemma_handle_round_trip::<MessageEndpoint>(*self, encoder, state, decoder, context);
    }
}

impl MojomLaws for SharedBuffer {
    proof fn lemma_layout(is_union: bool) {
    }

    proof fn lemma_encode(&self, encoder: EncoderView, state: Cursor, is_union: bool) {
        lemma_handle_encode(self.spec_untyped(), encoder, state);
    }

    proof fn lemma_round_trip(
        &self,
        encoder: EncoderView,
        state: Cursor,
        decoder: DecoderView,
        context: Context,
    ) {
        lemma_handle_round_trip::<SharedBuffer>(*self, encoder, state, decoder, context);
    }
}

impl MojomLaws for Consumer {
    proof fn lemma_layout(is_union: bool) {
    }

    proof fn lemma_encode(&self, encoder: EncoderView, state: Cursor, is_union: bool) {
        lemma_handle_encode(self.spec_untyped(), encoder, state);
    }

    proof fn lemma_round_trip(
        &self,
        encoder: EncoderView,
        state: Cursor,
        decoder: DecoderView,
        context: Context,
    ) {
        lemma_handle_round_trip::<Consumer>(*self, encoder, state, decoder, context);
    }
}

impl MojomLaws for Producer {
    proof fn lemma_layout(is_union: bool) {
    }

    proof fn lemma_encode(&self, encoder: EncoderView, state: Cursor, is_union: bool) {
        lemma_handle_encode(self.spec_untyped(), encoder, state);
    }

    proof fn lemma_round_trip(
        &self,
        encoder: EncoderView,
        state: Cursor,
        decoder: DecoderView,
        context: Context,
    ) {
        lemma_handle_round_trip::<Producer>(*self, encoder, state, decoder, context);
    }
}

/// The index of a handle that was written is not that of the null handle.
pub proof fn lemma_handle_present(handle: UntypedHandle, encoder: EncoderView, state: Cursor)
    requires
        encoder_wf(encoder),
        state.wf(),
        encode_ready(encoder, state, 32, 32, 0, 1),
    ensures
        u32::spec_from_wire_bytes(
            (Cursor { data: spec_encode_handle(handle, encoder, state).1.data, ..state }).peek(4, 4),
        ) != u32::MAX,
{
    let index = encoder.handles.len() as u32;
    index.lemma_wire_bytes();
    lemma_put(state, 4, index.spec_wire_bytes());
    crate::cursor::lemma_at(state, 4);
}

impl MojomPresent for UntypedHandle {
    proof fn lemma_present(&self, encoder: EncoderView, state: Cursor, is_union: bool) {
        lemma_handle_present(self.spec_untyped(), encoder, state);
    }

    proof fn lemma_not_simple() {
    }

    proof fn lemma_null_refused(decoder: DecoderView, context: Context) {
    }
}

impl MojomPresent for MessageEndpoint {
    proof fn lemma_present(&self, encoder: EncoderView, state: Cursor, is_union: bool) {
        lemma_handle_present(self.spec_untyped(), encoder, state);
    }

    proof fn lemma_not_simple() {
    }

    proof fn lemma_null_refused(decoder: DecoderView, context: Context) {
    }
}

impl MojomPresent for SharedBuffer {
    proof fn lemma_present(&self, encoder: EncoderView, state: Cursor, is_union: bool) {
        lemma_handle_present(self.spec_untyped(), encoder, state);
    }

    proof fn lemma_not_simple() {
    }

    proof fn lemma_null_refused(decoder: DecoderView, context: Context) {
    }
}

impl MojomPresent for Consumer {
    proof fn lemma_present(&self, encoder: EncoderView, state: Cursor, is_union: bool) {
        lemma_handle_present(self.spec_untyped(), encoder, state);
    }

    proof fn lemma_not_simple() {
    }

    proof fn lemma_null_refused(decoder: DecoderView, context: Context) {
    }
}

impl MojomPresent for Producer {
    proof fn lemma_present(&self, encoder: EncoderView, state: Cursor, is_union: bool) {
        lemma_handle_present(self.spec_untyped(), encoder, state);
    }

    proof fn lemma_not_simple() {
    }

    proof fn lemma_null_refused(decoder: DecoderView, context: Context) {
    }
}

impl crate::laws::MojomTotal for UntypedHandle {
    proof fn lemma_defined(decoder: DecoderView, context: Context) {
    }
}

impl crate::laws::MojomTotal for MessageEndpoint {
    proof fn lemma_defined(decoder: DecoderView, context: Context) {
    }
}

impl crate::laws::MojomTotal for SharedBuffer {
    proof fn lemma_defined(decoder: DecoderView, context: Context) {
    }
}

impl crate::laws::MojomTotal for Consumer {
    proof fn lemma_defined(decoder: DecoderView, context: Context) {
    }
}

impl crate::laws::MojomTotal for Producer {
    proof fn lemma_defined(decoder: DecoderView, context: Context) {
    }
}

} // verus!
