//! The envelope of a message: a header that names the message and carries
//! the request it belongs to, followed by the payload, which is a message of
//! its own.

use crate::bits::{lemma_align_up_fixed, Bits};
use crate::cursor::{lemma_put_skip, Cursor};
use crate::decoding::{
    known_version, stated_size, stated_word, Decoder, DecoderView, ValidationError,
};
use crate::encoding::{fresh_region, Context, DataHeaderValue, Encoder, EncoderView, EncodingState};
use crate::laws::{
    lemma_as_pointer_encode, lemma_as_pointer_present, lemma_as_pointer_round_trip,
    lemma_fresh_region, lemma_put, lemma_same_below_chain, lemma_same_below_earlier,
    lemma_same_bytes, lemma_same_header, value_header, MojomLaws, MojomPointerLaws, MojomPresent,
};
use crate::mojom::{
    decode_as_pointer, decode_frame, decode_kept, encode_as_pointer, spec_decode_as_pointer,
    spec_encode_as_pointer, Decoded, MojomEncodable, MojomPointer, MojomStruct, MojomType,
    MojomValue,
};
use crate::numeric::MojomNumeric;
use crate::system::UntypedHandle;
use vstd::prelude::*;

verus! {

/// The flags of a message that neither asks for a response nor is one.
pub const MESSAGE_HEADER_NO_FLAG: u32 = 0;

/// The flag of a message that asks for a response.
pub const MESSAGE_HEADER_EXPECT_RESPONSE: u32 = 1;

/// The flag of a message that is a response.
pub const MESSAGE_HEADER_IS_RESPONSE: u32 = 2;

/// The header of a message. A header of version 0 carries no request id;
/// where such a header is read, the request id is 0.
#[derive(Clone, Copy, Debug, PartialEq, Eq, Structural)]
pub struct MessageHeader {
    pub version: u32,
    pub interface_id: u32,
    pub name: u32,
    pub flags: u32,
    pub request_id: u64,
}

impl DeepView for MessageHeader {
    type V = MessageHeader;

    open spec fn deep_view(&self) -> MessageHeader {
        *self
    }
}

/// The versions of the header and the sizes of their regions: 24 bytes
/// without a request id, 32 bytes with one.
pub open spec fn message_header_versions() -> Seq<(u32, u32)> {
    seq![(0u32, 24u32), (1u32, 32u32)]
}

/// The size in bytes of the region of a header of the given version.
pub open spec fn message_header_bytes(version: u32) -> nat {
    if version == 0 {
        24
    } else {
        32
    }
}

/// The region after the fields of the header were written behind the header
/// of the region: the interface, the name, the flags, and from version 1 on
/// the request id.
pub open spec fn spec_encode_message_header(header: MessageHeader, state: Cursor) -> Cursor {
    let fixed = state.put(4, header.interface_id.spec_wire_bytes()).put(
        4,
        header.name.spec_wire_bytes(),
    ).put(4, header.flags.spec_wire_bytes());
    if header.version == 0 {
        fixed
    } else {
        fixed.put(8, header.request_id.spec_wire_bytes())
    }
}

/// The header that the region of `context` holds, and the decoder behind it.
/// The header is accepted where its version and size are a pair of the
/// version table.
pub open spec fn spec_read_message_header(decoder: DecoderView, context: Context) -> Result<
    (DecoderView, MessageHeader),
    ValidationError,
> {
    let state = decoder.state(context);
    let version = stated_word(state.data);
    let first = Cursor { pos: 64, ..state };
    let second = first.skip(4, 4);
    let third = second.skip(4, 4);
    let fourth = third.skip(4, 4);
    if !known_version(message_header_versions(), version, stated_size(state.data)) {
        Err(ValidationError::UnexpectedStructHeader)
    } else {
        Ok(
            (
                decoder.with_state(
                    context.id as int,
                    if version == 0 {
                        fourth
                    } else {
                        fourth.skip(8, 8)
                    },
                ),
                MessageHeader {
                    version,
                    interface_id: u32::spec_from_wire_bytes(first.peek(4, 4)),
                    name: u32::spec_from_wire_bytes(second.peek(4, 4)),
                    flags: u32::spec_from_wire_bytes(third.peek(4, 4)),
                    request_id: if version == 0 {
                        0
                    } else {
                        u64::spec_from_wire_bytes(fourth.peek(8, 8))
                    },
                },
            ),
        )
    }
}

/// The header that the region of `context` holds: a header is read or the
/// message is refused, whatever the message holds.
pub open spec fn spec_decode_message_header(decoder: DecoderView, context: Context) -> Decoded<
    MessageHeader,
> {
    match spec_read_message_header(decoder, context) {
        Ok((after, header)) => Decoded::Value(after, header),
        Err(e) => Decoded::Invalid(e),
    }
}

/// The header that a message starts with, read as a message of its own that
/// carries no handles.
pub open spec fn spec_message_header(buffer: Seq<u8>) -> Result<MessageHeader, ValidationError> {
    if crate::mojom::spec_decoder(buffer, Seq::empty()).claim_refused(0) {
        Err(ValidationError::IllegalPointer)
    } else {
        match spec_read_message_header(
            crate::mojom::spec_decoder(buffer, Seq::empty()).claimed(0),
            Context { id: 0, offset: 0, is_union: false },
        ) {
            Ok((_, header)) => Ok(header),
            Err(e) => Err(e),
        }
    }
}

impl MessageHeader {
    /// Whether the header can be written: it is of a version that the
    /// bindings know, and carries no request id where its version has none.
    pub open spec fn spec_writable(&self) -> bool {
        &&& self.version <= 1
        &&& self.version == 0 ==> self.request_id == 0
    }

    /// A header of version 0 for the message `name`, with the given flags
    /// and no request id.
    pub fn new(name: u32, flags: u32) -> (header: MessageHeader)
        ensures
            header == (MessageHeader { version: 0, interface_id: 0, name, flags, request_id: 0 }),
    {
        MessageHeader { version: 0, interface_id: 0, name, flags, request_id: 0 }
    }

    /// A header of version 1 for the message `name`, with the given flags and
    /// request id.
    pub fn with_request_id(name: u32, flags: u32, request_id: u64) -> (header: MessageHeader)
        ensures
            header == (MessageHeader { version: 1, interface_id: 0, name, flags, request_id }),
    {
        MessageHeader { version: 1, interface_id: 0, name, flags, request_id }
    }

    /// Fills the region of the header.
    fn write_fields(self, state: &mut EncodingState)
        requires
            self.spec_writable(),
            old(state).wf(),
            old(state)@.pos == 64,
            old(state)@.data.len() == message_header_bytes(self.version),
        ensures
            final(state).wf(),
            final(state)@ == spec_encode_message_header(self, old(state)@),
            final(state)@.base == old(state)@.base,
            final(state)@.data.len() == old(state)@.data.len(),
    {
        proof {
            self.interface_id.lemma_wire_bytes();
            self.name.lemma_wire_bytes();
            self.flags.lemma_wire_bytes();
            self.request_id.lemma_wire_bytes();
            lemma_put_skip(state@, 4, self.interface_id.spec_wire_bytes());
        }
        state.encode(self.interface_id);
        proof {
            lemma_put_skip(state@, 4, self.name.spec_wire_bytes());
        }
        state.encode(self.name);
        proof {
            lemma_put_skip(state@, 4, self.flags.spec_wire_bytes());
        }
        state.encode(self.flags);
        if self.version > 0 {
            proof {
                lemma_put_skip(state@, 8, self.request_id.spec_wire_bytes());
            }
            state.encode(self.request_id);
        }
    }

    /// Reads the header of the region of `context`, which was claimed and
    /// not read yet.
    #[verifier::rlimit(40)]
    fn read_fields(decoder: &mut Decoder, context: Context) -> (value: Result<
        MessageHeader,
        ValidationError,
    >)
        requires
            old(decoder).wf(),
            old(decoder)@.has(context),
            old(decoder)@.state(context).pos == 0,
        ensures
            final(decoder).wf(),
            decode_kept(old(decoder)@, final(decoder)@),
            match value {
                Ok(v) => {
                    &&& spec_decode_message_header(old(decoder)@, context) == Decoded::Value(
                        final(decoder)@,
                        v,
                    )
                    &&& decode_frame(old(decoder)@, final(decoder)@, context)
                },
                Err(e) => spec_decode_message_header(old(decoder)@, context) == Decoded::<
                    MessageHeader,
                >::Invalid(e),
            },
    {
        let versions: [(u32, u32); 2] = [(0, 24), (1, 32)];
        assert(versions@ =~= message_header_versions());
        let state = decoder.get_mut(&context);
        let version = match state.decode_struct_header(versions.as_slice()) {
            Ok(header) => header.data(),
            Err(err) => {
                return Err(err);
            },
        };
        proof {
            let zero = 0u32.spec_wire_bytes();
            0u32.lemma_wire_bytes();
            0u64.lemma_wire_bytes();
            lemma_put_skip(state@, 4, zero);
            lemma_put_skip(state@.skip(4, 4), 4, zero);
            lemma_put_skip(state@.skip(4, 4).skip(4, 4), 4, zero);
            if version != 0 {
                lemma_put_skip(
                    state@.skip(4, 4).skip(4, 4).skip(4, 4),
                    8,
                    0u64.spec_wire_bytes(),
                );
            }
        }
        let interface_id = state.decode::<u32>();
        let name = state.decode::<u32>();
        let flags = state.decode::<u32>();
        let request_id = if version > 0 {
            state.decode::<u64>()
        } else {
            0
        };
        Ok(MessageHeader { version, interface_id, name, flags, request_id })
    }
}

impl MojomValue for MessageHeader {
    open spec fn spec_mojom_type() -> MojomType {
        MojomType::Pointer
    }

    open spec fn spec_align_bits() -> nat {
        64
    }

    open spec fn spec_embed_size(is_union: bool) -> nat {
        64
    }

    open spec fn spec_compute_size(&self, is_union: bool) -> nat {
        message_header_bytes(self.version)
    }

    open spec fn spec_handles(&self) -> Seq<UntypedHandle> {
        Seq::empty()
    }

    open spec fn spec_encodable(&self, is_union: bool) -> bool {
        self.spec_writable()
    }

    open spec fn spec_canonical(&self) -> bool {
        true
    }
}

impl MojomEncodable for MessageHeader {
    open spec fn spec_encode(&self, encoder: EncoderView, state: Cursor, is_union: bool) -> (
        EncoderView,
        Cursor,
    ) {
        spec_encode_as_pointer(self, encoder, state)
    }

    open spec fn spec_decode(decoder: DecoderView, context: Context) -> Decoded<MessageHeader> {
        spec_decode_as_pointer::<MessageHeader>(decoder, context)
    }

    fn mojom_type() -> (category: MojomType) {
        MojomType::Pointer
    }

    fn mojom_alignment() -> (alignment: usize) {
        8
    }

    fn embed_size(context: &Context) -> (bits: Bits) {
        Bits(64)
    }

    fn compute_size(&self, context: Context) -> (size: usize) {
        if self.version == 0 {
            24
        } else {
            32
        }
    }

    fn encode(self, encoder: &mut Encoder, state: &mut EncodingState, context: Context) {
        let ghost value = self;
        encode_as_pointer(self, encoder, state, context);
        assert(value.spec_canonical() ==> (encoder@, state@) == spec_encode_as_pointer(
            &value,
            old(encoder)@,
            old(state)@,
        ));
        assert(spec_encode_as_pointer(&value, old(encoder)@, old(state)@) == value.spec_encode(
            old(encoder)@,
            old(state)@,
            context.is_union,
        ));
    }

    fn decode(decoder: &mut Decoder, context: Context) -> (value: Result<Self, ValidationError>) {
        decode_as_pointer(decoder, context)
    }
}

impl MojomPointer for MessageHeader {
    open spec fn spec_header_data(&self) -> DataHeaderValue {
        DataHeaderValue::Version(self.version)
    }

    open spec fn spec_serialized_size(&self) -> nat {
        message_header_bytes(self.version)
    }

    open spec fn spec_encode_value(&self, encoder: EncoderView, state: Cursor) -> (
        EncoderView,
        Cursor,
    ) {
        (encoder, spec_encode_message_header(*self, state))
    }

    open spec fn spec_decode_value(decoder: DecoderView, context: Context) -> Decoded<
        MessageHeader,
    > {
        spec_decode_message_header(decoder, context)
    }

    fn header_data(&self) -> (data: DataHeaderValue) {
        DataHeaderValue::Version(self.version)
    }

    fn serialized_size(&self, context: &Context) -> (size: usize) {
        proof {
            lemma_align_up_fixed(message_header_bytes(self.version), 8);
        }
        if self.version == 0 {
            24
        } else {
            32
        }
    }

    fn encode_value(self, encoder: &mut Encoder, state: &mut EncodingState, context: Context) {
        proof {
            lemma_align_up_fixed(message_header_bytes(self.version), 8);
        }
        self.write_fields(state)
    }

    fn decode_value(decoder: &mut Decoder, context: Context) -> (value: Result<
        Self,
        ValidationError,
    >) {
        MessageHeader::read_fields(decoder, context)
    }
}

impl MojomStruct for MessageHeader {

}

/// What writing the fields of a header does: each field lies behind the one
/// before it, and the header of the region stays.
#[verifier::rlimit(40)]
pub proof fn lemma_message_header_fields(header: MessageHeader, state: Cursor)
    requires
        header.spec_writable(),
        state.wf(),
        state.pos == 64,
        state.data.len() == message_header_bytes(header.version),
    ensures
        ({
            let first = state.put(4, header.interface_id.spec_wire_bytes());
            let second = first.put(4, header.name.spec_wire_bytes());
            let third = second.put(4, header.flags.spec_wire_bytes());
            let written = spec_encode_message_header(header, state);
            &&& written.wf()
            &&& written.base == state.base
            &&& written.data.len() == state.data.len()
            &&& crate::laws::same_below(written.data, state.data, 64)
            &&& written.data.subrange(8, 12) == header.interface_id.spec_wire_bytes()
            &&& written.data.subrange(12, 16) == header.name.spec_wire_bytes()
            &&& written.data.subrange(16, 20) == header.flags.spec_wire_bytes()
            &&& header.version == 1 ==> written.data.subrange(24, 32)
                == header.request_id.spec_wire_bytes()
        }),
{
    header.interface_id.lemma_wire_bytes();
    header.name.lemma_wire_bytes();
    header.flags.lemma_wire_bytes();
    header.request_id.lemma_wire_bytes();
    let first = state.put(4, header.interface_id.spec_wire_bytes());
    lemma_put(state, 4, header.interface_id.spec_wire_bytes());
    let second = first.put(4, header.name.spec_wire_bytes());
    lemma_put(first, 4, header.name.spec_wire_bytes());
    let third = second.put(4, header.flags.spec_wire_bytes());
    lemma_put(second, 4, header.flags.spec_wire_bytes());
    assert(state.at(4) == 8 && first.at(4) == 12 && second.at(4) == 16);
    lemma_same_below_earlier(second.data, first.data, first.pos, 64);
    lemma_same_below_chain(second.data, first.data, state.data, 64);
    lemma_same_below_earlier(third.data, second.data, second.pos, 64);
    lemma_same_below_chain(third.data, second.data, state.data, 64);
    lemma_same_bytes(second.data, first.data, 8, 4);
    lemma_same_bytes(third.data, second.data, 8, 4);
    lemma_same_bytes(third.data, second.data, 12, 4);
    if header.version == 1 {
        let fourth = third.put(8, header.request_id.spec_wire_bytes());
        lemma_put(third, 8, header.request_id.spec_wire_bytes());
        assert(third.at(8) == 24);
        lemma_same_below_earlier(fourth.data, third.data, third.pos, 64);
        lemma_same_below_chain(fourth.data, third.data, state.data, 64);
        lemma_same_bytes(fourth.data, third.data, 8, 4);
        lemma_same_bytes(fourth.data, third.data, 12, 4);
        lemma_same_bytes(fourth.data, third.data, 16, 4);
    }
}

impl MojomPointerLaws for MessageHeader {
    proof fn lemma_size(&self) {
        lemma_align_up_fixed(message_header_bytes(self.version), 8);
    }

    proof fn lemma_value_encode(&self, encoder: EncoderView, state: Cursor) {
        lemma_message_header_fields(*self, state);
        assert(encoder.handles + Seq::<UntypedHandle>::empty() =~= encoder.handles);
    }

    proof fn lemma_value_round_trip(
        &self,
        encoder: EncoderView,
        base: nat,
        decoder: DecoderView,
        context: Context,
    ) {
        let header = value_header(self);
        let fresh = fresh_region(header, base);
        lemma_fresh_region(header, base);
        lemma_message_header_fields(*self, fresh);
        let written = spec_encode_message_header(*self, fresh);
        lemma_same_header(written.data, fresh.data);
        let state = decoder.state(context);
        let first = Cursor { pos: 64, ..state };
        let second = first.skip(4, 4);
        let third = second.skip(4, 4);
        let fourth = third.skip(4, 4);
        assert(first.at(4) == 8 && second.at(4) == 12 && third.at(4) == 16);
        assert(fourth.at(8) == 24);
        self.interface_id.lemma_wire_bytes();
        self.name.lemma_wire_bytes();
        self.flags.lemma_wire_bytes();
        self.request_id.lemma_wire_bytes();
        assert(message_header_versions()[self.version as int] == (
            self.version,
            message_header_bytes(self.version) as u32,
        ));
        lemma_same_bytes(state.data, written.data, 8, 4);
        lemma_same_bytes(state.data, written.data, 12, 4);
        lemma_same_bytes(state.data, written.data, 16, 4);
        if self.version == 1 {
            lemma_same_bytes(state.data, written.data, 24, 8);
        }
        let after = Self::spec_decode_value(decoder, context)->Value_0;
        assert(after.handles =~= decoder.handles);
    }
}

impl MojomLaws for MessageHeader {
    proof fn lemma_layout(is_union: bool) {
    }

    proof fn lemma_encode(&self, encoder: EncoderView, state: Cursor, is_union: bool) {
        lemma_as_pointer_encode(self, encoder, state);
    }

    proof fn lemma_round_trip(
        &self,
        encoder: EncoderView,
        state: Cursor,
        decoder: DecoderView,
        context: Context,
    ) {
        lemma_as_pointer_round_trip(self, encoder, state, decoder, context);
    }
}

impl MojomPresent for MessageHeader {
    proof fn lemma_present(&self, encoder: EncoderView, state: Cursor, is_union: bool) {
        lemma_as_pointer_present(self, encoder, state);
    }

    proof fn lemma_not_simple() {
    }

    proof fn lemma_null_refused(decoder: DecoderView, context: Context) {
    }
}

impl crate::laws::MojomTotal for MessageHeader {
    proof fn lemma_defined(decoder: DecoderView, context: Context) {
    }
}

impl crate::laws::MojomValueTotal for MessageHeader {
    proof fn lemma_value_defined(decoder: DecoderView, context: Context) {
    }
}

} // verus!
