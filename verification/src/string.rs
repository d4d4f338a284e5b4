//! Strings: arrays of bytes that hold text as UTF-8.

use crate::bits::{align_default, align_up, lemma_align_up, Bits};
use crate::cursor::{lemma_put_skip, Cursor};
use crate::decoding::{stated_size, stated_word, Decoder, DecoderView, ValidationError};
use crate::encoding::{fresh_region, Context, DataHeaderValue, Encoder, EncoderView, EncodingState};
use crate::laws::{
    lemma_as_pointer_encode, lemma_as_pointer_present, lemma_as_pointer_round_trip,
    lemma_fresh_region, lemma_put, lemma_same_header, value_header, MojomLaws, MojomPointerLaws,
    MojomPresent,
};
use crate::mojom::{
    decode_as_pointer, decode_frame, decode_kept, encode_as_pointer, spec_decode_as_pointer,
    spec_encode_as_pointer, Decoded, MojomEncodable, MojomPointer, MojomType, MojomValue,
};
use crate::numeric::MojomNumeric;
use crate::system::UntypedHandle;
use vstd::prelude::*;
use vstd::slice::slice_to_vec;
use vstd::string::StringSliceAdditionalSpecFns;
use vstd::utf8::{decode_utf8, encode_utf8, valid_utf8};

verus! {

/// The size in bytes of the region of a text of `len` bytes.
pub open spec fn string_bytes(len: nat) -> nat {
    8 + len
}

/// Whether a text can be written: the size of its region fits the header.
pub open spec fn string_encodable(text: Seq<char>) -> bool {
    string_bytes(encode_utf8(text).len()) <= u32::MAX
}

/// The region after the UTF-8 bytes of the text were written.
pub open spec fn spec_encode_string_value(text: Seq<char>, state: Cursor) -> Cursor {
    state.put(1, encode_utf8(text))
}

/// The text that the region of `context` holds. Its header is accepted where
/// the size it states is that of the header and of the bytes it counts.
/// Nothing is said of bytes that are not UTF-8.
pub open spec fn spec_decode_string_value(decoder: DecoderView, context: Context) -> Decoded<
    Seq<char>,
> {
    let state = decoder.state(context);
    let count = stated_word(state.data) as nat;
    let behind = Cursor { pos: 64, ..state };
    if stated_size(state.data) != string_bytes(count) {
        Decoded::Invalid(ValidationError::UnexpectedArrayHeader)
    } else if !valid_utf8(behind.peek(1, count)) {
        Decoded::Undefined
    } else {
        Decoded::Value(
            decoder.with_state(context.id as int, behind.skip(1, count)),
            decode_utf8(behind.peek(1, count)),
        )
    }
}

/// Makes a text of its UTF-8 bytes. This is `String::from_utf8` of std,
/// which gives the text that the bytes encode where they are valid UTF-8,
/// and an error where they are not.
#[verifier::external_body]
fn string_from_utf8(bytes: Vec<u8>) -> (text: Option<String>)
    ensures
        text.is_some() <==> valid_utf8(bytes@),
        text.is_some() ==> encode_utf8(text.unwrap()@) == bytes@,
{
    match String::from_utf8(bytes) {
        Ok(text) => Some(text),
        Err(_) => None,
    }
}

/// The size in bytes of the region of a text.
pub fn string_serialized_size(text: &String) -> (size: usize)
    requires
        string_bytes(encode_utf8(text@).len()) <= usize::MAX,
    ensures
        size == string_bytes(encode_utf8(text@).len()),
{
    8 + text.as_str().len()
}

/// Fills the region of a text: writes its UTF-8 bytes behind the header.
pub fn encode_string_value(text: String, state: &mut EncodingState)
    requires
        old(state).wf(),
        old(state)@.pos == 64,
        old(state)@.data.len() == string_bytes(encode_utf8(text@).len()),
    ensures
        final(state).wf(),
        final(state)@ == spec_encode_string_value(text@, old(state)@),
        final(state)@.base == old(state)@.base,
        final(state)@.data.len() == old(state)@.data.len(),
{
    proof {
        lemma_put_skip(state@, 1, encode_utf8(text@));
    }
    state.encode_bytes(text.as_str().as_bytes());
}

/// Reads the text of the region of `context`, which was claimed and not read
/// yet: its header, then as many bytes as the header counts.
pub fn decode_string_value(decoder: &mut Decoder, context: Context) -> (value: Result<
    String,
    ValidationError,
>)
    requires
        old(decoder).wf(),
        old(decoder)@.has(context),
        old(decoder)@.state(context).pos == 0,
        !(spec_decode_string_value(old(decoder)@, context) is Undefined),
    ensures
        final(decoder).wf(),
        decode_kept(old(decoder)@, final(decoder)@),
        match value {
            Ok(v) => {
                &&& spec_decode_string_value(old(decoder)@, context) == Decoded::Value(
                    final(decoder)@,
                    v@,
                )
                &&& decode_frame(old(decoder)@, final(decoder)@, context)
            },
            Err(e) => spec_decode_string_value(old(decoder)@, context) == Decoded::<
                Seq<char>,
            >::Invalid(e),
        },
{
    assert(<u8 as MojomValue>::spec_embed_size(false) == 8);
    let state = decoder.get_mut(&context);
    let count = match state.decode_array_header::<u8>() {
        Ok(header) => header.data(),
        Err(err) => {
            return Err(err);
        },
    };
    proof {
        lemma_put_skip(state@, 1, Seq::new(count as nat, |i: int| 0u8));
    }
    let bytes = state.decode_bytes(count as usize);
    match string_from_utf8(slice_to_vec(bytes)) {
        Some(text) => {
            proof {
                vstd::utf8::encode_utf8_decode_utf8(text@);
            }
            Ok(text)
        },
        None => Err(ValidationError::UnexpectedArrayHeader),
    }
}

impl MojomValue for String {
    open spec fn spec_mojom_type() -> MojomType {
        MojomType::Pointer
    }

    open spec fn spec_align_bits() -> nat {
        64
    }

    open spec fn spec_embed_size(is_union: bool) -> nat {
        64
    }

    open spec fn spec_compute_size(&self, is_union: bool) -> nat {
        align_up(string_bytes(encode_utf8(self@).len()), 8)
    }

    open spec fn spec_handles(&self) -> Seq<UntypedHandle> {
        Seq::empty()
    }

    open spec fn spec_encodable(&self, is_union: bool) -> bool {
        string_encodable(self@)
    }

    open spec fn spec_canonical(&self) -> bool {
        true
    }
}

impl MojomEncodable for String {
    open spec fn spec_encode(&self, encoder: EncoderView, state: Cursor, is_union: bool) -> (
        EncoderView,
        Cursor,
    ) {
        spec_encode_as_pointer(self, encoder, state)
    }

    open spec fn spec_decode(decoder: DecoderView, context: Context) -> Decoded<Seq<char>> {
        spec_decode_as_pointer::<String>(decoder, context)
    }

    fn mojom_type() -> (category: MojomType) {
        MojomType::Pointer
    }

    fn mojom_alignment() -> (alignment: usize) {
        8
    }

    fn embed_size(context: &Context) -> (bits: Bits) {
        Bits(64)
    }

    fn compute_size(&self, context: Context) -> (size: usize) {
        proof {
            lemma_align_up(string_bytes(encode_utf8(self@).len()), 8);
        }
        align_default(string_serialized_size(self))
    }

    fn encode(self, encoder: &mut Encoder, state: &mut EncodingState, context: Context) {
        let ghost value = self;
        encode_as_pointer(self, encoder, state, context);
        assert(value.spec_canonical() ==> (encoder@, state@) == spec_encode_as_pointer(
            &value,
            old(encoder)@,
            old(state)@,
        ));
        assert(spec_encode_as_pointer(&value, old(encoder)@, old(state)@) == value.spec_encode(
            old(encoder)@,
            old(state)@,
            context.is_union,
        ));
    }

    fn decode(decoder: &mut Decoder, context: Context) -> (value: Result<Self, ValidationError>) {
        decode_as_pointer(decoder, context)
    }
}

impl MojomPointer for String {
    open spec fn spec_header_data(&self) -> DataHeaderValue {
        DataHeaderValue::Elements(encode_utf8(self@).len() as usize as u32)
    }

    open spec fn spec_serialized_size(&self) -> nat {
        string_bytes(encode_utf8(self@).len())
    }

    open spec fn spec_encode_value(&self, encoder: EncoderView, state: Cursor) -> (
        EncoderView,
        Cursor,
    ) {
        (encoder, spec_encode_string_value(self@, state))
    }

    open spec fn spec_decode_value(decoder: DecoderView, context: Context) -> Decoded<Seq<char>> {
        spec_decode_string_value(decoder, context)
    }

    fn header_data(&self) -> (data: DataHeaderValue) {
        DataHeaderValue::Elements(#[verifier::truncate] (self.as_str().len() as u32))
    }

    fn serialized_size(&self, context: &Context) -> (size: usize) {
        string_serialized_size(self)
    }

    fn encode_value(self, encoder: &mut Encoder, state: &mut EncodingState, context: Context) {
        encode_string_value(self, state)
    }

    fn decode_value(decoder: &mut Decoder, context: Context) -> (value: Result<
        Self,
        ValidationError,
    >) {
        decode_string_value(decoder, context)
    }
}

impl MojomPointerLaws for String {
    proof fn lemma_size(&self) {
    }

    proof fn lemma_value_encode(&self, encoder: EncoderView, state: Cursor) {
        crate::bits::lemma_align_up_fixed(64, 8);
        lemma_put(state, 1, encode_utf8(self@));
    }

    proof fn lemma_value_round_trip(
        &self,
        encoder: EncoderView,
        base: nat,
        decoder: DecoderView,
        context: Context,
    ) {
        let bytes = encode_utf8(self@);
        let header = value_header(self);
        let fresh = fresh_region(header, base);
        lemma_fresh_region(header, base);
        crate::bits::lemma_align_up_fixed(64, 8);
        lemma_put(fresh, 1, bytes);
        let written = fresh.put(1, bytes);
        lemma_same_header(written.data, fresh.data);
        vstd::utf8::encode_utf8_valid_utf8(self@);
        vstd::utf8::encode_utf8_decode_utf8(self@);
        let behind = Cursor { pos: 64, ..decoder.state(context) };
        assert(behind.at(1) == fresh.at(1));
        assert(behind.peek(1, bytes.len()) == bytes);
        let after = Self::spec_decode_value(decoder, context)->Value_0;
        assert(after.handles =~= decoder.handles);
    }
}

impl MojomLaws for String {
    proof fn lemma_layout(is_union: bool) {
    }

    proof fn lemma_encode(&self, encoder: EncoderView, state: Cursor, is_union: bool) {
        lemma_as_pointer_encode(self, encoder, state);
    }

    proof fn lemma_round_trip(
        &self,
        encoder: EncoderView,
        state: Cursor,
        decoder: DecoderView,
        context: Context,
    ) {
        lemma_as_pointer_round_trip(self, encoder, state, decoder, context);
    }
}

impl MojomPresent for String {
    proof fn lemma_present(&self, encoder: EncoderView, state: Cursor, is_union: bool) {
        lemma_as_pointer_present(self, encoder, state);
    }

    proof fn lemma_not_simple() {
    }

    proof fn lemma_null_refused(decoder: DecoderView, context: Context) {
    }
}

} // verus!
