//! Structs as the bindings of an interface state them, written to messages
//! and read back.

use mojo_bindings::bits::{align_default, Bits};
use mojo_bindings::cursor::Cursor;
use mojo_bindings::decoding::{Decoder, DecoderView, ValidationError};
use mojo_bindings::encoding::{Context, DataHeaderValue, Encoder, EncoderView, EncodingState};
use mojo_bindings::mojom::{
    decode_as_pointer, encode_as_pointer, Decoded, MojomEncodable, MojomPointer, MojomStruct,
    MojomType, MojomValue,
};
use mojo_bindings::system::UntypedHandle;
use vstd::prelude::nat;
use vstd::seq::Seq;
use vstd::view::DeepView;
use mojo_bindings::system::acquire;
use std::collections::HashMap;

#[derive(Debug, PartialEq, Clone)]
struct Rect {
    x: i32,
    y: i32,
    width: i32,
    height: i32,
}

const RECT_VERSIONS: [(u32, u32); 1] = [(0, 24)];

impl DeepView for Rect {
    type V = Rect;

    fn deep_view(&self) -> Rect {
        unreachable!()
    }
}

impl MojomValue for Rect {
    fn spec_mojom_type() -> MojomType {
        unreachable!()
    }

    fn spec_align_bits() -> nat {
        unreachable!()
    }

    fn spec_embed_size(_is_union: bool) -> nat {
        unreachable!()
    }

    fn spec_compute_size(&self, _is_union: bool) -> nat {
        unreachable!()
    }

    fn spec_handles(&self) -> Seq<UntypedHandle> {
        unreachable!()
    }

    fn spec_encodable(&self, _is_union: bool) -> bool {
        unreachable!()
    }

    fn spec_canonical(&self) -> bool {
        unreachable!()
    }
}

impl MojomEncodable for Rect {
    fn spec_encode(
        &self,
        _encoder: EncoderView,
        _state: Cursor,
        _is_union: bool,
    ) -> (EncoderView, Cursor) {
        unreachable!()
    }

    fn spec_decode(_decoder: DecoderView, _context: Context) -> Decoded<Rect> {
        unreachable!()
    }

    fn mojom_type() -> MojomType {
        MojomType::Pointer
    }

    fn mojom_alignment() -> usize {
        8
    }

    fn embed_size(_context: &Context) -> Bits {
        Bits(64)
    }

    fn compute_size(&self, context: Context) -> usize {
        align_default(self.serialized_size(&context))
            + self.x.compute_size(context)
            + self.y.compute_size(context)
            + self.width.compute_size(context)
            + self.height.compute_size(context)
    }

    fn encode(self, encoder: &mut Encoder, state: &mut EncodingState, context: Context) {
        encode_as_pointer(self, encoder, state, context)
    }

    fn decode(decoder: &mut Decoder, context: Context) -> Result<Self, ValidationError> {
        decode_as_pointer(decoder, context)
    }
}

impl MojomPointer for Rect {
    fn spec_header_data(&self) -> DataHeaderValue {
        unreachable!()
    }

    fn spec_serialized_size(&self) -> nat {
        unreachable!()
    }

    fn spec_encode_value(&self, _encoder: EncoderView, _state: Cursor) -> (EncoderView, Cursor) {
        unreachable!()
    }

    fn spec_decode_value(_decoder: DecoderView, _context: Context) -> Decoded<Rect> {
        unreachable!()
    }

    fn header_data(&self) -> DataHeaderValue {
        DataHeaderValue::Version(0)
    }

    fn serialized_size(&self, _context: &Context) -> usize {
        24
    }

    fn encode_value(self, encoder: &mut Encoder, state: &mut EncodingState, context: Context) {
        self.x.encode(encoder, state, context);
        self.y.encode(encoder, state, context);
        self.width.encode(encoder, state, context);
        self.height.encode(encoder, state, context);
    }

    fn decode_value(decoder: &mut Decoder, context: Context) -> Result<Self, ValidationError> {
        decoder.get_mut(&context).decode_struct_header(&RECT_VERSIONS)?;
        let x = <i32>::decode(decoder, context)?;
        let y = <i32>::decode(decoder, context)?;
        let width = <i32>::decode(decoder, context)?;
        let height = <i32>::decode(decoder, context)?;
        Ok(Rect { x, y, width, height })
    }
}

impl MojomStruct for Rect {}

#[derive(Debug, PartialEq)]
struct RectPair {
    first: Option<Rect>,
    second: Option<Rect>,
}

const RECT_PAIR_VERSIONS: [(u32, u32); 1] = [(0, 24)];

impl DeepView for RectPair {
    type V = RectPair;

    fn deep_view(&self) -> RectPair {
        unreachable!()
    }
}

impl MojomValue for RectPair {
    fn spec_mojom_type() -> MojomType {
        unreachable!()
    }

    fn spec_align_bits() -> nat {
        unreachable!()
    }

    fn spec_embed_size(_is_union: bool) -> nat {
        unreachable!()
    }

    fn spec_compute_size(&self, _is_union: bool) -> nat {
        unreachable!()
    }

    fn spec_handles(&self) -> Seq<UntypedHandle> {
        unreachable!()
    }

    fn spec_encodable(&self, _is_union: bool) -> bool {
        unreachable!()
    }

    fn spec_canonical(&self) -> bool {
        unreachable!()
    }
}

impl MojomEncodable for RectPair {
    fn spec_encode(
        &self,
        _encoder: EncoderView,
        _state: Cursor,
        _is_union: bool,
    ) -> (EncoderView, Cursor) {
        unreachable!()
    }

    fn spec_decode(_decoder: DecoderView, _context: Context) -> Decoded<RectPair> {
        unreachable!()
    }

    fn mojom_type() -> MojomType {
        MojomType::Pointer
    }

    fn mojom_alignment() -> usize {
        8
    }

    fn embed_size(_context: &Context) -> Bits {
        Bits(64)
    }

    fn compute_size(&self, context: Context) -> usize {
        align_default(self.serialized_size(&context))
            + self.first.compute_size(context)
            + self.second.compute_size(context)
    }

    fn encode(self, encoder: &mut Encoder, state: &mut EncodingState, context: Context) {
        encode_as_pointer(self, encoder, state, context)
    }

    fn decode(decoder: &mut Decoder, context: Context) -> Result<Self, ValidationError> {
        decode_as_pointer(decoder, context)
    }
}

impl MojomPointer for RectPair {
    fn spec_header_data(&self) -> DataHeaderValue {
        unreachable!()
    }

    fn spec_serialized_size(&self) -> nat {
        unreachable!()
    }

    fn spec_encode_value(&self, _encoder: EncoderView, _state: Cursor) -> (EncoderView, Cursor) {
        unreachable!()
    }

    fn spec_decode_value(_decoder: DecoderView, _context: Context) -> Decoded<RectPair> {
        unreachable!()
    }

    fn header_data(&self) -> DataHeaderValue {
        DataHeaderValue::Version(0)
    }

    fn serialized_size(&self, _context: &Context) -> usize {
        24
    }

    fn encode_value(self, encoder: &mut Encoder, state: &mut EncodingState, context: Context) {
        self.first.encode(encoder, state, context);
        self.second.encode(encoder, state, context);
    }

    fn decode_value(decoder: &mut Decoder, context: Context) -> Result<Self, ValidationError> {
        decoder.get_mut(&context).decode_struct_header(&RECT_PAIR_VERSIONS)?;
        let first = <Option<Rect>>::decode(decoder, context)?;
        let second = <Option<Rect>>::decode(decoder, context)?;
        Ok(RectPair { first, second })
    }
}

impl MojomStruct for RectPair {}

#[derive(Debug, PartialEq)]
struct Greeting {
    text: String,
}

const GREETING_VERSIONS: [(u32, u32); 1] = [(0, 16)];

impl DeepView for Greeting {
    type V = Greeting;

    fn deep_view(&self) -> Greeting {
        unreachable!()
    }
}

impl MojomValue for Greeting {
    fn spec_mojom_type() -> MojomType {
        unreachable!()
    }

    fn spec_align_bits() -> nat {
        unreachable!()
    }

    fn spec_embed_size(_is_union: bool) -> nat {
        unreachable!()
    }

    fn spec_compute_size(&self, _is_union: bool) -> nat {
        unreachable!()
    }

    fn spec_handles(&self) -> Seq<UntypedHandle> {
        unreachable!()
    }

    fn spec_encodable(&self, _is_union: bool) -> bool {
        unreachable!()
    }

    fn spec_canonical(&self) -> bool {
        unreachable!()
    }
}

impl MojomEncodable for Greeting {
    fn spec_encode(
        &self,
        _encoder: EncoderView,
        _state: Cursor,
        _is_union: bool,
    ) -> (EncoderView, Cursor) {
        unreachable!()
    }

    fn spec_decode(_decoder: DecoderView, _context: Context) -> Decoded<Greeting> {
        unreachable!()
    }

    fn mojom_type() -> MojomType {
        MojomType::Pointer
    }

    fn mojom_alignment() -> usize {
        8
    }

    fn embed_size(_context: &Context) -> Bits {
        Bits(64)
    }

    fn compute_size(&self, context: Context) -> usize {
        align_default(self.serialized_size(&context)) + self.text.compute_size(context)
    }

    fn encode(self, encoder: &mut Encoder, state: &mut EncodingState, context: Context) {
        encode_as_pointer(self, encoder, state, context)
    }

    fn decode(decoder: &mut Decoder, context: Context) -> Result<Self, ValidationError> {
        decode_as_pointer(decoder, context)
    }
}

impl MojomPointer for Greeting {
    fn spec_header_data(&self) -> DataHeaderValue {
        unreachable!()
    }

    fn spec_serialized_size(&self) -> nat {
        unreachable!()
    }

    fn spec_encode_value(&self, _encoder: EncoderView, _state: Cursor) -> (EncoderView, Cursor) {
        unreachable!()
    }

    fn spec_decode_value(_decoder: DecoderView, _context: Context) -> Decoded<Greeting> {
        unreachable!()
    }

    fn header_data(&self) -> DataHeaderValue {
        DataHeaderValue::Version(0)
    }

    fn serialized_size(&self, _context: &Context) -> usize {
        16
    }

    fn encode_value(self, encoder: &mut Encoder, state: &mut EncodingState, context: Context) {
        self.text.encode(encoder, state, context);
    }

    fn decode_value(decoder: &mut Decoder, context: Context) -> Result<Self, ValidationError> {
        decoder.get_mut(&context).decode_struct_header(&GREETING_VERSIONS)?;
        let text = <String>::decode(decoder, context)?;
        Ok(Greeting { text })
    }
}

impl MojomStruct for Greeting {}

#[derive(Debug, PartialEq)]
struct StructA<T> {
    param0: [T; 3],
}

const STRUCT_A_VERSIONS: [(u32, u32); 1] = [(0, 16)];

impl<T: MojomEncodable> DeepView for StructA<T> {
    type V = StructA<T>;

    fn deep_view(&self) -> StructA<T> {
        unreachable!()
    }
}

impl<T: MojomEncodable> MojomValue for StructA<T> {
    fn spec_mojom_type() -> MojomType {
        unreachable!()
    }

    fn spec_align_bits() -> nat {
        unreachable!()
    }

    fn spec_embed_size(_is_union: bool) -> nat {
        unreachable!()
    }

    fn spec_compute_size(&self, _is_union: bool) -> nat {
        unreachable!()
    }

    fn spec_handles(&self) -> Seq<UntypedHandle> {
        unreachable!()
    }

    fn spec_encodable(&self, _is_union: bool) -> bool {
        unreachable!()
    }

    fn spec_canonical(&self) -> bool {
        unreachable!()
    }
}

impl<T: MojomEncodable> MojomEncodable for StructA<T> {
    fn spec_encode(
        &self,
        _encoder: EncoderView,
        _state: Cursor,
        _is_union: bool,
    ) -> (EncoderView, Cursor) {
        unreachable!()
    }

    fn spec_decode(_decoder: DecoderView, _context: Context) -> Decoded<StructA<T>> {
        unreachable!()
    }

    fn mojom_type() -> MojomType {
        MojomType::Pointer
    }

    fn mojom_alignment() -> usize {
        8
    }

    fn embed_size(_context: &Context) -> Bits {
        Bits(64)
    }

    fn compute_size(&self, context: Context) -> usize {
        align_default(self.serialized_size(&context)) + self.param0.compute_size(context)
    }

    fn encode(self, encoder: &mut Encoder, state: &mut EncodingState, context: Context) {
        encode_as_pointer(self, encoder, state, context)
    }

    fn decode(decoder: &mut Decoder, context: Context) -> Result<Self, ValidationError> {
        decode_as_pointer(decoder, context)
    }
}

impl<T: MojomEncodable> MojomPointer for StructA<T> {
    fn spec_header_data(&self) -> DataHeaderValue {
        unreachable!()
    }

    fn spec_serialized_size(&self) -> nat {
        unreachable!()
    }

    fn spec_encode_value(&self, _encoder: EncoderView, _state: Cursor) -> (EncoderView, Cursor) {
        unreachable!()
    }

    fn spec_decode_value(_decoder: DecoderView, _context: Context) -> Decoded<StructA<T>> {
        unreachable!()
    }

    fn header_data(&self) -> DataHeaderValue {
        DataHeaderValue::Version(0)
    }

    fn serialized_size(&self, _context: &Context) -> usize {
        16
    }

    fn encode_value(self, encoder: &mut Encoder, state: &mut EncodingState, context: Context) {
        self.param0.encode(encoder, state, context);
    }

    fn decode_value(decoder: &mut Decoder, context: Context) -> Result<Self, ValidationError> {
        decoder.get_mut(&context).decode_struct_header(&STRUCT_A_VERSIONS)?;
        let param0 = <[T; 3]>::decode(decoder, context)?;
        Ok(StructA { param0 })
    }
}

impl<T: MojomEncodable> MojomStruct for StructA<T> {}

#[derive(Debug, PartialEq)]
struct Switches {
    a: bool,
    b: bool,
    c: bool,
    level: u8,
    d: bool,
    count: u16,
    big: u64,
}

const SWITCHES_VERSIONS: [(u32, u32); 1] = [(0, 24)];

impl DeepView for Switches {
    type V = Switches;

    fn deep_view(&self) -> Switches {
        unreachable!()
    }
}

impl MojomValue for Switches {
    fn spec_mojom_type() -> MojomType {
        unreachable!()
    }

    fn spec_align_bits() -> nat {
        unreachable!()
    }

    fn spec_embed_size(_is_union: bool) -> nat {
        unreachable!()
    }

    fn spec_compute_size(&self, _is_union: bool) -> nat {
        unreachable!()
    }

    fn spec_handles(&self) -> Seq<UntypedHandle> {
        unreachable!()
    }

    fn spec_encodable(&self, _is_union: bool) -> bool {
        unreachable!()
    }

    fn spec_canonical(&self) -> bool {
        unreachable!()
    }
}

impl MojomEncodable for Switches {
    fn spec_encode(
        &self,
        _encoder: EncoderView,
        _state: Cursor,
        _is_union: bool,
    ) -> (EncoderView, Cursor) {
        unreachable!()
    }

    fn spec_decode(_decoder: DecoderView, _context: Context) -> Decoded<Switches> {
        unreachable!()
    }

    fn mojom_type() -> MojomType {
        MojomType::Pointer
    }

    fn mojom_alignment() -> usize {
        8
    }

    fn embed_size(_context: &Context) -> Bits {
        Bits(64)
    }

    fn compute_size(&self, context: Context) -> usize {
        align_default(self.serialized_size(&context))
            + self.a.compute_size(context)
            + self.b.compute_size(context)
            + self.c.compute_size(context)
            + self.level.compute_size(context)
            + self.d.compute_size(context)
            + self.count.compute_size(context)
            + self.big.compute_size(context)
    }

    fn encode(self, encoder: &mut Encoder, state: &mut EncodingState, context: Context) {
        encode_as_pointer(self, encoder, state, context)
    }

    fn decode(decoder: &mut Decoder, context: Context) -> Result<Self, ValidationError> {
        decode_as_pointer(decoder, context)
    }
}

impl MojomPointer for Switches {
    fn spec_header_data(&self) -> DataHeaderValue {
        unreachable!()
    }

    fn spec_serialized_size(&self) -> nat {
        unreachable!()
    }

    fn spec_encode_value(&self, _encoder: EncoderView, _state: Cursor) -> (EncoderView, Cursor) {
        unreachable!()
    }

    fn spec_decode_value(_decoder: DecoderView, _context: Context) -> Decoded<Switches> {
        unreachable!()
    }

    fn header_data(&self) -> DataHeaderValue {
        DataHeaderValue::Version(0)
    }

    fn serialized_size(&self, _context: &Context) -> usize {
        24
    }

    fn encode_value(self, encoder: &mut Encoder, state: &mut EncodingState, context: Context) {
        self.a.encode(encoder, state, context);
        self.b.encode(encoder, state, context);
        self.c.encode(encoder, state, context);
        self.level.encode(encoder, state, context);
        self.d.encode(encoder, state, context);
        self.count.encode(encoder, state, context);
        self.big.encode(encoder, state, context);
    }

    fn decode_value(decoder: &mut Decoder, context: Context) -> Result<Self, ValidationError> {
        decoder.get_mut(&context).decode_struct_header(&SWITCHES_VERSIONS)?;
        let a = <bool>::decode(decoder, context)?;
        let b = <bool>::decode(decoder, context)?;
        let c = <bool>::decode(decoder, context)?;
        let level = <u8>::decode(decoder, context)?;
        let d = <bool>::decode(decoder, context)?;
        let count = <u16>::decode(decoder, context)?;
        let big = <u64>::decode(decoder, context)?;
        Ok(Switches { a, b, c, level, d, count, big })
    }
}

impl MojomStruct for Switches {}

#[derive(Debug, PartialEq)]
struct Nested {
    rows: Vec<Vec<u16>>,
    tail: Option<String>,
    boxed: Box<[u32]>,
    bits: Vec<bool>,
}

const NESTED_VERSIONS: [(u32, u32); 1] = [(0, 40)];

impl DeepView for Nested {
    type V = Nested;

    fn deep_view(&self) -> Nested {
        unreachable!()
    }
}

impl MojomValue for Nested {
    fn spec_mojom_type() -> MojomType {
        unreachable!()
    }

    fn spec_align_bits() -> nat {
        unreachable!()
    }

    fn spec_embed_size(_is_union: bool) -> nat {
        unreachable!()
    }

    fn spec_compute_size(&self, _is_union: bool) -> nat {
        unreachable!()
    }

    fn spec_handles(&self) -> Seq<UntypedHandle> {
        unreachable!()
    }

    fn spec_encodable(&self, _is_union: bool) -> bool {
        unreachable!()
    }

    fn spec_canonical(&self) -> bool {
        unreachable!()
    }
}

impl MojomEncodable for Nested {
    fn spec_encode(
        &self,
        _encoder: EncoderView,
        _state: Cursor,
        _is_union: bool,
    ) -> (EncoderView, Cursor) {
        unreachable!()
    }

    fn spec_decode(_decoder: DecoderView, _context: Context) -> Decoded<Nested> {
        unreachable!()
    }

    fn mojom_type() -> MojomType {
        MojomType::Pointer
    }

    fn mojom_alignment() -> usize {
        8
    }

    fn embed_size(_context: &Context) -> Bits {
        Bits(64)
    }

    fn compute_size(&self, context: Context) -> usize {
        align_default(self.serialized_size(&context))
            + self.rows.compute_size(context)
            + self.tail.compute_size(context)
            + self.boxed.compute_size(context)
            + self.bits.compute_size(context)
    }

    fn encode(self, encoder: &mut Encoder, state: &mut EncodingState, context: Context) {
        encode_as_pointer(self, encoder, state, context)
    }

    fn decode(decoder: &mut Decoder, context: Context) -> Result<Self, ValidationError> {
        decode_as_pointer(decoder, context)
    }
}

impl MojomPointer for Nested {
    fn spec_header_data(&self) -> DataHeaderValue {
        unreachable!()
    }

    fn spec_serialized_size(&self) -> nat {
        unreachable!()
    }

    fn spec_encode_value(&self, _encoder: EncoderView, _state: Cursor) -> (EncoderView, Cursor) {
        unreachable!()
    }

    fn spec_decode_value(_decoder: DecoderView, _context: Context) -> Decoded<Nested> {
        unreachable!()
    }

    fn header_data(&self) -> DataHeaderValue {
        DataHeaderValue::Version(0)
    }

    fn serialized_size(&self, _context: &Context) -> usize {
        40
    }

    fn encode_value(self, encoder: &mut Encoder, state: &mut EncodingState, context: Context) {
        self.rows.encode(encoder, state, context);
        self.tail.encode(encoder, state, context);
        self.boxed.encode(encoder, state, context);
        self.bits.encode(encoder, state, context);
    }

    fn decode_value(decoder: &mut Decoder, context: Context) -> Result<Self, ValidationError> {
        decoder.get_mut(&context).decode_struct_header(&NESTED_VERSIONS)?;
        let rows = <Vec<Vec<u16>>>::decode(decoder, context)?;
        let tail = <Option<String>>::decode(decoder, context)?;
        let boxed = <Box<[u32]>>::decode(decoder, context)?;
        let bits = <Vec<bool>>::decode(decoder, context)?;
        Ok(Nested { rows, tail, boxed, bits })
    }
}

impl MojomStruct for Nested {}

#[derive(Debug, PartialEq)]
struct Carrier {
    first: UntypedHandle,
    spare: Option<UntypedHandle>,
    second: UntypedHandle,
}

const CARRIER_VERSIONS: [(u32, u32); 1] = [(0, 24)];

impl DeepView for Carrier {
    type V = Carrier;

    fn deep_view(&self) -> Carrier {
        unreachable!()
    }
}

impl MojomValue for Carrier {
    fn spec_mojom_type() -> MojomType {
        unreachable!()
    }

    fn spec_align_bits() -> nat {
        unreachable!()
    }

    fn spec_embed_size(_is_union: bool) -> nat {
        unreachable!()
    }

    fn spec_compute_size(&self, _is_union: bool) -> nat {
        unreachable!()
    }

    fn spec_handles(&self) -> Seq<UntypedHandle> {
        unreachable!()
    }

    fn spec_encodable(&self, _is_union: bool) -> bool {
        unreachable!()
    }

    fn spec_canonical(&self) -> bool {
        unreachable!()
    }
}

impl MojomEncodable for Carrier {
    fn spec_encode(
        &self,
        _encoder: EncoderView,
        _state: Cursor,
        _is_union: bool,
    ) -> (EncoderView, Cursor) {
        unreachable!()
    }

    fn spec_decode(_decoder: DecoderView, _context: Context) -> Decoded<Carrier> {
        unreachable!()
    }

    fn mojom_type() -> MojomType {
        MojomType::Pointer
    }

    fn mojom_alignment() -> usize {
        8
    }

    fn embed_size(_context: &Context) -> Bits {
        Bits(64)
    }

    fn compute_size(&self, context: Context) -> usize {
        align_default(self.serialized_size(&context))
            + self.first.compute_size(context)
            + self.spare.compute_size(context)
            + self.second.compute_size(context)
    }

    fn encode(self, encoder: &mut Encoder, state: &mut EncodingState, context: Context) {
        encode_as_pointer(self, encoder, state, context)
    }

    fn decode(decoder: &mut Decoder, context: Context) -> Result<Self, ValidationError> {
        decode_as_pointer(decoder, context)
    }
}

impl MojomPointer for Carrier {
    fn spec_header_data(&self) -> DataHeaderValue {
        unreachable!()
    }

    fn spec_serialized_size(&self) -> nat {
        unreachable!()
    }

    fn spec_encode_value(&self, _encoder: EncoderView, _state: Cursor) -> (EncoderView, Cursor) {
        unreachable!()
    }

    fn spec_decode_value(_decoder: DecoderView, _context: Context) -> Decoded<Carrier> {
        unreachable!()
    }

    fn header_data(&self) -> DataHeaderValue {
        DataHeaderValue::Version(0)
    }

    fn serialized_size(&self, _context: &Context) -> usize {
        24
    }

    fn encode_value(self, encoder: &mut Encoder, state: &mut EncodingState, context: Context) {
        self.first.encode(encoder, state, context);
        self.spare.encode(encoder, state, context);
        self.second.encode(encoder, state, context);
    }

    fn decode_value(decoder: &mut Decoder, context: Context) -> Result<Self, ValidationError> {
        decoder.get_mut(&context).decode_struct_header(&CARRIER_VERSIONS)?;
        let first = <UntypedHandle>::decode(decoder, context)?;
        let spare = <Option<UntypedHandle>>::decode(decoder, context)?;
        let second = <UntypedHandle>::decode(decoder, context)?;
        Ok(Carrier { first, spare, second })
    }
}

impl MojomStruct for Carrier {}

#[test]
fn basic_struct_test() {
    let _rect = Rect { x: 1, y: 1, width: 1, height: 1 };
}

#[test]
fn rect_round_trips() {
    let rect = Rect { x: 1, y: 1, width: 1, height: 1 };
    assert_eq!(rect.compute_size(Context::default()), 24);
    let (buffer, handles) = rect.clone().auto_serialize();
    assert_eq!(
        buffer,
        vec![24, 0, 0, 0, 0, 0, 0, 0, 1, 0, 0, 0, 1, 0, 0, 0, 1, 0, 0, 0, 1, 0, 0, 0]
    );
    assert!(handles.is_empty());
    assert_eq!(Rect::deserialize(&buffer, handles), Ok(rect));
}

#[test]
fn rect_negative_fields_round_trip() {
    let rect = Rect { x: -1, y: i32::MIN, width: i32::MAX, height: 0x0102_0304 };
    let (buffer, handles) = rect.clone().auto_serialize();
    assert_eq!(&buffer[8..12], &[0xFF, 0xFF, 0xFF, 0xFF]);
    assert_eq!(&buffer[12..16], &[0, 0, 0, 0x80]);
    assert_eq!(&buffer[20..24], &[4, 3, 2, 1]);
    assert_eq!(Rect::deserialize(&buffer, handles), Ok(rect));
}

#[test]
fn serialize_fills_the_start_of_a_longer_buffer() {
    let rect = Rect { x: 5, y: 6, width: 7, height: 8 };
    let mut buffer = vec![0xAAu8; 40];
    let handles = rect.clone().serialize(&mut buffer);
    assert!(handles.is_empty());
    assert_eq!(buffer.len(), 40);
    assert_eq!(&buffer[..8], &[24, 0, 0, 0, 0, 0, 0, 0]);
    assert_eq!(&buffer[24..], &[0xAAu8; 16]);
    assert_eq!(Rect::deserialize(&buffer, Vec::new()), Ok(rect));
}

#[test]
fn rect_with_unknown_version_is_refused() {
    let rect = Rect { x: 1, y: 2, width: 3, height: 4 };
    let (mut buffer, handles) = rect.auto_serialize();
    buffer[4] = 1;
    assert_eq!(Rect::deserialize(&buffer, handles), Err(ValidationError::UnexpectedStructHeader));
}

#[test]
fn rect_with_a_size_that_its_version_does_not_have_is_refused() {
    let rect = Rect { x: 1, y: 2, width: 3, height: 4 };
    let (mut buffer, handles) = rect.auto_serialize();
    buffer[0] = 16;
    assert_eq!(Rect::deserialize(&buffer, handles), Err(ValidationError::UnexpectedStructHeader));
}

#[test]
fn rect_in_short_buffer_is_refused() {
    let rect = Rect { x: 1, y: 2, width: 3, height: 4 };
    let (buffer, _) = rect.auto_serialize();
    assert_eq!(Rect::deserialize(&buffer[..16], Vec::new()), Err(ValidationError::IllegalPointer));
    assert_eq!(Rect::deserialize(&buffer[..4], Vec::new()), Err(ValidationError::IllegalPointer));
    assert_eq!(Rect::deserialize(&[], Vec::new()), Err(ValidationError::IllegalPointer));
}

#[test]
fn rect_pair_with_absent_second_round_trips() {
    let pair = RectPair { first: Some(Rect { x: 1, y: 1, width: 1, height: 1 }), second: None };
    assert_eq!(pair.compute_size(Context::default()), 48);
    let (buffer, handles) = pair.auto_serialize();
    assert_eq!(buffer.len(), 48);
    // two pointers: the first leads 16 bytes on, the second is null
    assert_eq!(&buffer[8..16], &[16, 0, 0, 0, 0, 0, 0, 0]);
    assert_eq!(&buffer[16..24], &[0u8; 8]);
    assert_eq!(&buffer[24..32], &[24, 0, 0, 0, 0, 0, 0, 0]);
    let back = RectPair::deserialize(&buffer, handles).unwrap();
    assert_eq!(
        back,
        RectPair { first: Some(Rect { x: 1, y: 1, width: 1, height: 1 }), second: None }
    );
}

#[test]
fn rect_pair_with_both_round_trips() {
    let pair = RectPair {
        first: Some(Rect { x: 1, y: 2, width: 3, height: 4 }),
        second: Some(Rect { x: 5, y: 6, width: 7, height: 8 }),
    };
    let (buffer, handles) = pair.auto_serialize();
    assert_eq!(buffer.len(), 72);
    assert_eq!(&buffer[8..16], &[16, 0, 0, 0, 0, 0, 0, 0]);
    assert_eq!(&buffer[16..24], &[32, 0, 0, 0, 0, 0, 0, 0]);
    let back = RectPair::deserialize(&buffer, handles).unwrap();
    assert_eq!(back.second, Some(Rect { x: 5, y: 6, width: 7, height: 8 }));
}

#[test]
fn null_pointer_where_a_struct_must_be_is_refused() {
    let text = Greeting { text: String::from("hello") };
    let (mut buffer, handles) = text.auto_serialize();
    for byte in &mut buffer[8..16] {
        *byte = 0;
    }
    assert_eq!(
        Greeting::deserialize(&buffer, handles),
        Err(ValidationError::UnexpectedNullPointer)
    );
}

#[test]
fn string_hello_lies_behind_a_pointer_of_8() {
    let text = Greeting { text: String::from("hello") };
    assert_eq!(text.compute_size(Context::default()), 32);
    let (buffer, handles) = text.auto_serialize();
    assert_eq!(
        buffer,
        vec![
            16, 0, 0, 0, 0, 0, 0, 0, // the struct
            8, 0, 0, 0, 0, 0, 0, 0, // the pointer to the text
            13, 0, 0, 0, 5, 0, 0, 0, // the header of the text
            b'h', b'e', b'l', b'l', b'o', 0, 0, 0,
        ]
    );
    assert_eq!(
        Greeting::deserialize(&buffer, handles),
        Ok(Greeting { text: String::from("hello") })
    );
}

#[test]
fn text_beyond_ascii_round_trips() {
    let text = Greeting { text: String::from("gr\u{fc}\u{df} \u{4e16}\u{754c}") };
    let (buffer, handles) = text.auto_serialize();
    // 13 bytes of UTF-8: two of two bytes, two of three, and three of one
    assert_eq!(&buffer[16..24], &[21, 0, 0, 0, 13, 0, 0, 0]);
    assert_eq!(
        Greeting::deserialize(&buffer, handles).unwrap().text,
        "gr\u{fc}\u{df} \u{4e16}\u{754c}"
    );
}

#[test]
fn empty_text_round_trips() {
    let (buffer, handles) = Greeting { text: String::new() }.auto_serialize();
    assert_eq!(buffer.len(), 24);
    assert_eq!(&buffer[16..24], &[8, 0, 0, 0, 0, 0, 0, 0]);
    assert_eq!(Greeting::deserialize(&buffer, handles), Ok(Greeting { text: String::new() }));
}

#[test]
fn text_whose_size_does_not_fit_its_length_is_refused() {
    let (mut buffer, handles) = Greeting { text: String::from("hello") }.auto_serialize();
    buffer[20] = 4;
    assert_eq!(
        Greeting::deserialize(&buffer, handles),
        Err(ValidationError::UnexpectedArrayHeader)
    );
}

#[test]
fn pointer_that_leads_out_of_the_message_is_refused() {
    let (mut buffer, handles) = Greeting { text: String::from("hello") }.auto_serialize();
    buffer[8] = 200;
    assert_eq!(Greeting::deserialize(&buffer, handles), Err(ValidationError::IllegalPointer));
}

#[test]
fn pointer_that_leads_to_no_multiple_of_8_is_refused() {
    let (mut buffer, handles) = Greeting { text: String::from("hello") }.auto_serialize();
    buffer[8] = 9;
    assert_eq!(Greeting::deserialize(&buffer, handles), Err(ValidationError::IllegalPointer));
}

#[test]
fn regression_fixed_size_array_error_propagates_safely() {
    let handle1 = acquire(0);
    let handle2 = acquire(0);
    let handle3 = acquire(0);
    let val = StructA { param0: [handle1, handle2, handle3] };
    let (buffer, mut handles) = val.auto_serialize();
    handles.truncate(1);
    let new_val = <StructA<UntypedHandle>>::deserialize(&buffer[..], handles);
    match new_val {
        Ok(_) => panic!("Value should not be okay!"),
        Err(err) => assert_eq!(err, ValidationError::IllegalHandle),
    }
}

#[test]
fn fixed_size_array_of_handles_round_trips() {
    let val = StructA { param0: [acquire(7), acquire(8), acquire(9)] };
    let (buffer, handles) = val.auto_serialize();
    assert_eq!(buffer.len(), 16 + 24);
    assert_eq!(&buffer[16..24], &[20, 0, 0, 0, 3, 0, 0, 0]);
    assert_eq!(&buffer[24..36], &[0, 0, 0, 0, 1, 0, 0, 0, 2, 0, 0, 0]);
    assert_eq!(handles, vec![acquire(7), acquire(8), acquire(9)]);
    let back = <StructA<UntypedHandle>>::deserialize(&buffer, handles).unwrap();
    assert_eq!(back.param0, [acquire(7), acquire(8), acquire(9)]);
}

#[test]
fn fixed_size_array_of_another_length_is_refused() {
    let (buffer, handles) = StructA { param0: [1u16, 2, 3] }.auto_serialize();
    assert_eq!(&buffer[16..24], &[14, 0, 0, 0, 3, 0, 0, 0]);
    assert_eq!(
        <StructA<u16>>::deserialize(&buffer, handles),
        Ok(StructA { param0: [1u16, 2, 3] })
    );
    let (mut longer, _) = Nested {
        rows: Vec::new(),
        tail: None,
        boxed: vec![1u32, 2, 3, 4].into_boxed_slice(),
        bits: Vec::new(),
    }
    .auto_serialize();
    // a struct of one pointer to an array of four elements of 32 bits
    longer.drain(8..24);
    longer[0] = 16;
    longer[8] = 24;
    assert_eq!(
        <StructA<u32>>::deserialize(&longer, Vec::new()),
        Err(ValidationError::UnexpectedArrayHeader)
    );
}

#[test]
fn handle_claimed_twice_is_refused() {
    let val = StructA { param0: [acquire(7), acquire(8), acquire(9)] };
    let (mut buffer, handles) = val.auto_serialize();
    buffer[32] = 0;
    assert_eq!(
        <StructA<UntypedHandle>>::deserialize(&buffer, handles),
        Err(ValidationError::IllegalHandle)
    );
}

#[test]
fn null_handle_where_a_handle_must_be_is_refused() {
    let val = StructA { param0: [acquire(7), acquire(8), acquire(9)] };
    let (mut buffer, handles) = val.auto_serialize();
    for byte in &mut buffer[28..32] {
        *byte = 0xFF;
    }
    assert_eq!(
        <StructA<UntypedHandle>>::deserialize(&buffer, handles),
        Err(ValidationError::UnexpectedNullPointer)
    );
}

#[test]
fn absent_handle_is_the_index_of_all_ones() {
    let val = Carrier { first: acquire(3), spare: None, second: acquire(4) };
    let (buffer, handles) = val.auto_serialize();
    assert_eq!(&buffer[8..20], &[0, 0, 0, 0, 0xFF, 0xFF, 0xFF, 0xFF, 1, 0, 0, 0]);
    assert_eq!(handles.len(), 2);
    assert_eq!(
        Carrier::deserialize(&buffer, handles),
        Ok(Carrier { first: acquire(3), spare: None, second: acquire(4) })
    );
}

#[test]
fn present_optional_handle_round_trips() {
    let val = Carrier { first: acquire(3), spare: Some(acquire(5)), second: acquire(4) };
    let (buffer, handles) = val.auto_serialize();
    assert_eq!(&buffer[8..20], &[0, 0, 0, 0, 1, 0, 0, 0, 2, 0, 0, 0]);
    assert_eq!(handles, vec![acquire(3), acquire(5), acquire(4)]);
    assert_eq!(
        Carrier::deserialize(&buffer, handles),
        Ok(Carrier { first: acquire(3), spare: Some(acquire(5)), second: acquire(4) })
    );
}

#[test]
fn booleans_are_packed_bit_by_bit() {
    let val = Switches { a: true, b: false, c: true, level: 9, d: true, count: 0x1234, big: 7 };
    let (buffer, handles) = val.auto_serialize();
    assert_eq!(buffer.len(), 24);
    // three bits, then a byte, then one bit in a byte of its own, then 16 bits
    assert_eq!(&buffer[8..16], &[0b101, 9, 1, 0, 0x34, 0x12, 0, 0]);
    assert_eq!(&buffer[16..24], &[7, 0, 0, 0, 0, 0, 0, 0]);
    assert_eq!(
        Switches::deserialize(&buffer, handles),
        Ok(Switches { a: true, b: false, c: true, level: 9, d: true, count: 0x1234, big: 7 })
    );
}

#[test]
fn arrays_of_arrays_round_trip() {
    let val = Nested {
        rows: vec![vec![1, 2, 3], Vec::new(), vec![0xFFFF]],
        tail: Some(String::from("end")),
        boxed: vec![10u32, 20].into_boxed_slice(),
        bits: vec![true, false, false, true, true, false, true, false, true],
    };
    let size = val.compute_size(Context::default());
    let (buffer, handles) = val.auto_serialize();
    assert_eq!(buffer.len(), size);
    // 40 for the struct; 32 for the rows and 16 + 8 + 16 for what they hold;
    // 16 for the text; 16 for the boxed slice; 16 for the bits
    assert_eq!(size, 40 + 32 + 40 + 16 + 16 + 16);
    // the bits lie at the end: nine of them in two bytes
    assert_eq!(&buffer[size - 16..size - 8], &[10, 0, 0, 0, 9, 0, 0, 0]);
    assert_eq!(&buffer[size - 8..size - 6], &[0b0101_1001, 0b1]);
    let back = Nested::deserialize(&buffer, handles).unwrap();
    assert_eq!(back.rows, vec![vec![1, 2, 3], Vec::new(), vec![0xFFFF]]);
    assert_eq!(back.tail, Some(String::from("end")));
    assert_eq!(back.boxed, vec![10u32, 20].into_boxed_slice());
    assert_eq!(back.bits, vec![true, false, false, true, true, false, true, false, true]);
}

#[test]
fn region_that_was_claimed_is_not_claimed_again() {
    let pair = RectPair {
        first: Some(Rect { x: 1, y: 2, width: 3, height: 4 }),
        second: Some(Rect { x: 5, y: 6, width: 7, height: 8 }),
    };
    let (mut buffer, handles) = pair.auto_serialize();
    // let the second pointer lead to the region of the first
    buffer[16] = 8;
    assert_eq!(RectPair::deserialize(&buffer, handles), Err(ValidationError::IllegalPointer));
}

fn map_message(map: HashMap<String, u8>) -> (Vec<u8>, Vec<UntypedHandle>) {
    let size = map.compute_size(Context::default());
    let mut encoder = Encoder::new(vec![0u8; size]);
    let offset = map.encode_new(&mut encoder, Context::default());
    assert_eq!(offset, 0);
    encoder.unwrap()
}

#[test]
fn map_of_two_entries_is_two_arrays_of_two() {
    let mut map = HashMap::new();
    map.insert(String::from("a"), 1u8);
    map.insert(String::from("b"), 2u8);
    assert_eq!(map.compute_size(Context::default()), 96);
    let (buffer, handles) = map_message(map.clone());
    assert_eq!(buffer.len(), 96);
    assert!(handles.is_empty());
    // the struct of the map, with the pointers to the keys and to the values
    assert_eq!(&buffer[0..8], &[24, 0, 0, 0, 0, 0, 0, 0]);
    assert_eq!(&buffer[8..16], &[16, 0, 0, 0, 0, 0, 0, 0]);
    assert_eq!(&buffer[16..24], &[64, 0, 0, 0, 0, 0, 0, 0]);
    // the keys: two pointers to texts of one byte each
    assert_eq!(&buffer[24..32], &[24, 0, 0, 0, 2, 0, 0, 0]);
    assert_eq!(&buffer[32..40], &[16, 0, 0, 0, 0, 0, 0, 0]);
    assert_eq!(&buffer[40..48], &[24, 0, 0, 0, 0, 0, 0, 0]);
    assert_eq!(&buffer[48..56], &[9, 0, 0, 0, 1, 0, 0, 0]);
    assert_eq!(&buffer[64..72], &[9, 0, 0, 0, 1, 0, 0, 0]);
    // the values: two bytes, in the order of the keys
    assert_eq!(&buffer[80..88], &[10, 0, 0, 0, 2, 0, 0, 0]);
    let first = buffer[56];
    let second = buffer[72];
    assert!((first, second) == (b'a', b'b') || (first, second) == (b'b', b'a'));
    assert_eq!(buffer[88], if first == b'a' { 1 } else { 2 });
    assert_eq!(buffer[89], if first == b'a' { 2 } else { 1 });
    let mut decoder = Decoder::new(&buffer, handles);
    let back = <HashMap<String, u8>>::decode_new(&mut decoder, Context::default(), 0);
    assert_eq!(back, Ok(map));
}

#[test]
fn map_whose_arrays_differ_in_length_is_refused() {
    let mut map = HashMap::new();
    map.insert(String::from("a"), 1u8);
    map.insert(String::from("b"), 2u8);
    let (mut buffer, handles) = map_message(map);
    // one value only
    buffer[80] = 9;
    buffer[84] = 1;
    let mut decoder = Decoder::new(&buffer, handles);
    assert_eq!(
        <HashMap<String, u8>>::decode_new(&mut decoder, Context::default(), 0),
        Err(ValidationError::DifferentSizedArraysInMap)
    );
}

#[test]
fn map_with_a_null_array_is_refused() {
    let mut map = HashMap::new();
    map.insert(7u32, 1u8);
    let size = map.compute_size(Context::default());
    assert_eq!(size, 24 + 16 + 16);
    let mut encoder = Encoder::new(vec![0u8; size]);
    let _ = map.encode_new(&mut encoder, Context::default());
    let (mut buffer, handles) = encoder.unwrap();
    buffer[16] = 0;
    let mut decoder = Decoder::new(&buffer, handles);
    assert_eq!(
        <HashMap<u32, u8>>::decode_new(&mut decoder, Context::default(), 0),
        Err(ValidationError::UnexpectedNullPointer)
    );
}

#[test]
fn map_that_is_no_struct_of_24_bytes_is_refused() {
    let (buffer, handles) = Rect { x: 1, y: 2, width: 3, height: 4 }.auto_serialize();
    let mut versioned = buffer.clone();
    versioned[4] = 3;
    let mut decoder = Decoder::new(&versioned, handles);
    assert_eq!(
        <HashMap<u32, u8>>::decode_new(&mut decoder, Context::default(), 0),
        Err(ValidationError::UnexpectedStructHeader)
    );
}

#[test]
fn of_equal_keys_in_a_map_the_later_one_decides() {
    let mut map = HashMap::new();
    map.insert(1u8, 10u8);
    map.insert(2u8, 20u8);
    let size = map.compute_size(Context::default());
    let mut encoder = Encoder::new(vec![0u8; size]);
    let _ = map.encode_new(&mut encoder, Context::default());
    let (mut buffer, handles) = encoder.unwrap();
    let later = buffer[49];
    // make both keys the same
    buffer[32] = 5;
    buffer[33] = 5;
    let mut decoder = Decoder::new(&buffer, handles);
    let back = <HashMap<u8, u8>>::decode_new(&mut decoder, Context::default(), 0).unwrap();
    assert_eq!(back.len(), 1);
    assert_eq!(back.get(&5), Some(&later));
}

#[test]
fn empty_map_round_trips() {
    let map: HashMap<u16, String> = HashMap::new();
    assert_eq!(map.compute_size(Context::default()), 40);
    let mut encoder = Encoder::new(vec![0u8; 40]);
    let _ = map.encode_new(&mut encoder, Context::default());
    let (buffer, handles) = encoder.unwrap();
    let mut decoder = Decoder::new(&buffer, handles);
    assert_eq!(
        <HashMap<u16, String>>::decode_new(&mut decoder, Context::default(), 0),
        Ok(HashMap::new())
    );
}
