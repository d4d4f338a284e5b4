//! Unions as the bindings of an interface state them: in place in a struct,
//! and by pointer in another union.

use mojo_bindings::bits::{align_default, Bits};
use mojo_bindings::cursor::Cursor;
use mojo_bindings::decoding::{Decoder, DecoderView, ValidationError};
use mojo_bindings::encoding::{Context, DataHeaderValue, Encoder, EncoderView, EncodingState};
use mojo_bindings::mojom::{
    decode_as_pointer, decode_union, decode_union_inline, decode_union_nested, encode_as_pointer,
    encode_union, encode_union_inline, encode_union_nested, union_embed_size, Decoded,
    MojomEncodable, MojomPointer, MojomStruct, MojomType, MojomUnion, MojomValue,
};
use mojo_bindings::system::UntypedHandle;
use vstd::prelude::nat;
use vstd::seq::Seq;
use vstd::view::DeepView;

#[derive(Debug, PartialEq)]
enum Shape {
    Side(u32),
    Name(String),
    Inner(Box<Shape>),
    Flag(bool),
}

impl DeepView for Shape {
    type V = Shape;

    fn deep_view(&self) -> Shape {
        unreachable!()
    }
}

impl MojomValue for Shape {
    fn spec_mojom_type() -> MojomType {
        unreachable!()
    }

    fn spec_align_bits() -> nat {
        unreachable!()
    }

    fn spec_embed_size(_is_union: bool) -> nat {
        unreachable!()
    }

    fn spec_compute_size(&self, _is_union: bool) -> nat {
        unreachable!()
    }

    fn spec_handles(&self) -> Seq<UntypedHandle> {
        unreachable!()
    }

    fn spec_encodable(&self, _is_union: bool) -> bool {
        unreachable!()
    }

    fn spec_canonical(&self) -> bool {
        unreachable!()
    }
}

impl MojomEncodable for Shape {
    fn spec_encode(
        &self,
        _encoder: EncoderView,
        _state: Cursor,
        _is_union: bool,
    ) -> (EncoderView, Cursor) {
        unreachable!()
    }

    fn spec_decode(_decoder: DecoderView, _context: Context) -> Decoded<Shape> {
        unreachable!()
    }

    fn mojom_type() -> MojomType {
        MojomType::Union
    }

    fn mojom_alignment() -> usize {
        8
    }

    fn embed_size(context: &Context) -> Bits {
        union_embed_size(context)
    }

    fn compute_size(&self, context: Context) -> usize {
        let member = context.set_is_union(true);
        let inner = match self {
            Shape::Side(side) => side.compute_size(member),
            Shape::Name(name) => name.compute_size(member),
            Shape::Inner(shape) => shape.compute_size(member),
            Shape::Flag(flag) => flag.compute_size(member),
        };
        if context.is_union() {
            16 + inner
        } else {
            inner
        }
    }

    fn encode(self, encoder: &mut Encoder, state: &mut EncodingState, context: Context) {
        encode_union(self, encoder, state, context)
    }

    fn decode(decoder: &mut Decoder, context: Context) -> Result<Self, ValidationError> {
        decode_union(decoder, context)
    }
}

impl MojomUnion for Shape {
    fn spec_tag(&self) -> u32 {
        unreachable!()
    }

    fn spec_encode_value(
        &self,
        _encoder: EncoderView,
        _state: Cursor,
        _is_union: bool,
    ) -> (EncoderView, Cursor) {
        unreachable!()
    }

    fn spec_decode_value(_decoder: DecoderView, _context: Context) -> Decoded<Shape> {
        unreachable!()
    }

    fn get_tag(&self) -> u32 {
        match self {
            Shape::Side(_) => 0,
            Shape::Name(_) => 1,
            Shape::Inner(_) => 2,
            Shape::Flag(_) => 3,
        }
    }

    fn encode_value(self, encoder: &mut Encoder, state: &mut EncodingState, context: Context) {
        let member = context.set_is_union(true);
        match self {
            Shape::Side(side) => side.encode(encoder, state, member),
            Shape::Name(name) => name.encode(encoder, state, member),
            Shape::Inner(shape) => (*shape).encode(encoder, state, member),
            Shape::Flag(flag) => flag.encode(encoder, state, member),
        }
    }

    fn decode_value(decoder: &mut Decoder, context: Context) -> Result<Self, ValidationError> {
        let member = context.set_is_union(true);
        let (size, tag) = {
            let state = decoder.get_mut(&context);
            (state.decode::<u32>(), state.decode::<u32>())
        };
        if size != 16 {
            return Err(ValidationError::UnexpectedStructHeader);
        }
        match tag {
            0 => Ok(Shape::Side(u32::decode(decoder, member)?)),
            1 => Ok(Shape::Name(String::decode(decoder, member)?)),
            2 => Ok(Shape::Inner(Box::new(Shape::decode(decoder, member)?))),
            3 => Ok(Shape::Flag(bool::decode(decoder, member)?)),
            _ => Err(ValidationError::UnexpectedStructHeader),
        }
    }
}

#[derive(Debug, PartialEq)]
struct Drawing {
    shape: Shape,
    maybe: Option<Shape>,
    after: u8,
}

const DRAWING_VERSIONS: [(u32, u32); 1] = [(0, 48)];

impl DeepView for Drawing {
    type V = Drawing;

    fn deep_view(&self) -> Drawing {
        unreachable!()
    }
}

impl MojomValue for Drawing {
    fn spec_mojom_type() -> MojomType {
        unreachable!()
    }

    fn spec_align_bits() -> nat {
        unreachable!()
    }

    fn spec_embed_size(_is_union: bool) -> nat {
        unreachable!()
    }

    fn spec_compute_size(&self, _is_union: bool) -> nat {
        unreachable!()
    }

    fn spec_handles(&self) -> Seq<UntypedHandle> {
        unreachable!()
    }

    fn spec_encodable(&self, _is_union: bool) -> bool {
        unreachable!()
    }

    fn spec_canonical(&self) -> bool {
        unreachable!()
    }
}

impl MojomEncodable for Drawing {
    fn spec_encode(
        &self,
        _encoder: EncoderView,
        _state: Cursor,
        _is_union: bool,
    ) -> (EncoderView, Cursor) {
        unreachable!()
    }

    fn spec_decode(_decoder: DecoderView, _context: Context) -> Decoded<Drawing> {
        unreachable!()
    }

    fn mojom_type() -> MojomType {
        MojomType::Pointer
    }

    fn mojom_alignment() -> usize {
        8
    }

    fn embed_size(_context: &Context) -> Bits {
        Bits(64)
    }

    fn compute_size(&self, context: Context) -> usize {
        align_default(self.serialized_size(&context))
            + self.shape.compute_size(context)
            + self.maybe.compute_size(context)
            + self.after.compute_size(context)
    }

    fn encode(self, encoder: &mut Encoder, state: &mut EncodingState, context: Context) {
        encode_as_pointer(self, encoder, state, context)
    }

    fn decode(decoder: &mut Decoder, context: Context) -> Result<Self, ValidationError> {
        decode_as_pointer(decoder, context)
    }
}

impl MojomPointer for Drawing {
    fn spec_header_data(&self) -> DataHeaderValue {
        unreachable!()
    }

    fn spec_serialized_size(&self) -> nat {
        unreachable!()
    }

    fn spec_encode_value(&self, _encoder: EncoderView, _state: Cursor) -> (EncoderView, Cursor) {
        unreachable!()
    }

    fn spec_decode_value(_decoder: DecoderView, _context: Context) -> Decoded<Drawing> {
        unreachable!()
    }

    fn header_data(&self) -> DataHeaderValue {
        DataHeaderValue::Version(0)
    }

    fn serialized_size(&self, _context: &Context) -> usize {
        48
    }

    fn encode_value(self, encoder: &mut Encoder, state: &mut EncodingState, context: Context) {
        self.shape.encode(encoder, state, context);
        self.maybe.encode(encoder, state, context);
        self.after.encode(encoder, state, context);
    }

    fn decode_value(decoder: &mut Decoder, context: Context) -> Result<Self, ValidationError> {
        decoder.get_mut(&context).decode_struct_header(&DRAWING_VERSIONS)?;
        let shape = <Shape>::decode(decoder, context)?;
        let maybe = <Option<Shape>>::decode(decoder, context)?;
        let after = <u8>::decode(decoder, context)?;
        Ok(Drawing { shape, maybe, after })
    }
}

impl MojomStruct for Drawing {}

#[test]
fn union_in_a_struct_is_a_cell_of_16_bytes() {
    let drawing = Drawing { shape: Shape::Side(7), maybe: None, after: 9 };
    assert_eq!(drawing.compute_size(Context::default()), 48);
    let (buffer, handles) = drawing.auto_serialize();
    assert_eq!(buffer.len(), 48);
    assert_eq!(&buffer[8..24], &[16, 0, 0, 0, 0, 0, 0, 0, 7, 0, 0, 0, 0, 0, 0, 0]);
    // the absent union is a cell of zeros
    assert_eq!(&buffer[24..40], &[0u8; 16]);
    assert_eq!(buffer[40], 9);
    assert_eq!(
        Drawing::deserialize(&buffer, handles),
        Ok(Drawing { shape: Shape::Side(7), maybe: None, after: 9 })
    );
}

#[test]
fn union_member_of_one_bit_is_followed_by_the_next_cell() {
    let drawing = Drawing { shape: Shape::Flag(true), maybe: Some(Shape::Side(3)), after: 1 };
    let (buffer, handles) = drawing.auto_serialize();
    assert_eq!(&buffer[8..24], &[16, 0, 0, 0, 3, 0, 0, 0, 1, 0, 0, 0, 0, 0, 0, 0]);
    assert_eq!(&buffer[24..40], &[16, 0, 0, 0, 0, 0, 0, 0, 3, 0, 0, 0, 0, 0, 0, 0]);
    assert_eq!(buffer[40], 1);
    assert_eq!(
        Drawing::deserialize(&buffer, handles),
        Ok(Drawing { shape: Shape::Flag(true), maybe: Some(Shape::Side(3)), after: 1 })
    );
}

#[test]
fn union_member_in_a_region_of_its_own_round_trips() {
    let drawing = Drawing { shape: Shape::Name(String::from("hi")), maybe: None, after: 0 };
    assert_eq!(drawing.compute_size(Context::default()), 48 + 16);
    let (buffer, handles) = drawing.auto_serialize();
    assert_eq!(&buffer[8..16], &[16, 0, 0, 0, 1, 0, 0, 0]);
    // the pointer in the cell stands at 16 and leads to 48
    assert_eq!(&buffer[16..24], &[32, 0, 0, 0, 0, 0, 0, 0]);
    assert_eq!(&buffer[48..58], &[10, 0, 0, 0, 2, 0, 0, 0, b'h', b'i']);
    assert_eq!(
        Drawing::deserialize(&buffer, handles),
        Ok(Drawing { shape: Shape::Name(String::from("hi")), maybe: None, after: 0 })
    );
}

#[test]
fn union_in_a_union_lies_behind_a_pointer() {
    let drawing = Drawing {
        shape: Shape::Inner(Box::new(Shape::Side(5))),
        maybe: Some(Shape::Inner(Box::new(Shape::Inner(Box::new(Shape::Flag(true)))))),
        after: 2,
    };
    assert_eq!(drawing.compute_size(Context::default()), 48 + 16 + 32);
    let (buffer, handles) = drawing.auto_serialize();
    assert_eq!(buffer.len(), 96);
    assert_eq!(&buffer[8..16], &[16, 0, 0, 0, 2, 0, 0, 0]);
    assert_eq!(&buffer[16..24], &[32, 0, 0, 0, 0, 0, 0, 0]);
    // the cell of the inner union: its header holds the size and the tag
    assert_eq!(&buffer[48..64], &[16, 0, 0, 0, 0, 0, 0, 0, 5, 0, 0, 0, 0, 0, 0, 0]);
    // the second union holds a union that holds a union
    assert_eq!(&buffer[32..40], &[32, 0, 0, 0, 0, 0, 0, 0]);
    assert_eq!(&buffer[64..80], &[16, 0, 0, 0, 2, 0, 0, 0, 8, 0, 0, 0, 0, 0, 0, 0]);
    assert_eq!(&buffer[80..96], &[16, 0, 0, 0, 3, 0, 0, 0, 1, 0, 0, 0, 0, 0, 0, 0]);
    assert_eq!(
        Drawing::deserialize(&buffer, handles),
        Ok(Drawing {
            shape: Shape::Inner(Box::new(Shape::Side(5))),
            maybe: Some(Shape::Inner(Box::new(Shape::Inner(Box::new(Shape::Flag(true)))))),
            after: 2,
        })
    );
}

#[test]
fn null_union_where_a_union_must_be_is_refused() {
    let drawing = Drawing { shape: Shape::Side(7), maybe: None, after: 9 };
    let (mut buffer, handles) = drawing.auto_serialize();
    for byte in &mut buffer[8..24] {
        *byte = 0;
    }
    assert_eq!(
        Drawing::deserialize(&buffer, handles),
        Err(ValidationError::UnexpectedNullPointer)
    );
}

#[test]
fn null_pointer_where_a_union_in_a_union_must_be_is_refused() {
    let drawing = Drawing { shape: Shape::Inner(Box::new(Shape::Side(5))), maybe: None, after: 2 };
    let (mut buffer, handles) = drawing.auto_serialize();
    buffer[16] = 0;
    assert_eq!(
        Drawing::deserialize(&buffer, handles),
        Err(ValidationError::UnexpectedNullPointer)
    );
}

#[test]
fn union_in_a_union_whose_region_is_no_cell_is_refused() {
    let drawing = Drawing { shape: Shape::Inner(Box::new(Shape::Side(5))), maybe: None, after: 2 };
    let (mut buffer, handles) = drawing.auto_serialize();
    buffer[48] = 8;
    assert_eq!(
        Drawing::deserialize(&buffer, handles),
        Err(ValidationError::UnexpectedStructHeader)
    );
}

#[test]
fn union_with_a_tag_that_the_type_does_not_have_is_refused() {
    let drawing = Drawing { shape: Shape::Side(7), maybe: None, after: 9 };
    let (mut buffer, handles) = drawing.auto_serialize();
    buffer[12] = 77;
    assert_eq!(
        Drawing::deserialize(&buffer, handles),
        Err(ValidationError::UnexpectedStructHeader)
    );
}

#[test]
fn encode_union_inline_ends_at_the_end_of_the_cell() {
    let mut encoder = Encoder::new(vec![0u8; 64]);
    let header = mojo_bindings::encoding::DataHeader::new(40, DataHeaderValue::Version(0));
    let (offset, mut state, context) = encoder.add(&header);
    assert_eq!(offset, 0);
    state.encode(1u8);
    encode_union_inline(Shape::Side(0x0A0B), &mut encoder, &mut state, context);
    state.encode(2u8);
    encoder.commit(state);
    let (buffer, _) = encoder.unwrap();
    assert_eq!(buffer[8], 1);
    assert_eq!(&buffer[16..32], &[16, 0, 0, 0, 0, 0, 0, 0, 0x0B, 0x0A, 0, 0, 0, 0, 0, 0]);
    assert_eq!(buffer[32], 2);
}

#[test]
fn encode_union_nested_writes_a_pointer_and_a_region() {
    let mut encoder = Encoder::new(vec![0u8; 32]);
    let header = mojo_bindings::encoding::DataHeader::new(16, DataHeaderValue::Version(0));
    let (_, mut state, context) = encoder.add(&header);
    encode_union_nested(Shape::Side(9), &mut encoder, &mut state, context);
    encoder.commit(state);
    let (buffer, _) = encoder.unwrap();
    assert_eq!(&buffer[8..16], &[8, 0, 0, 0, 0, 0, 0, 0]);
    assert_eq!(&buffer[16..32], &[16, 0, 0, 0, 0, 0, 0, 0, 9, 0, 0, 0, 0, 0, 0, 0]);
    let mut decoder = Decoder::new(&buffer, Vec::new());
    let root = decoder.claim(0).unwrap();
    assert!(decoder.get_mut(&root).decode_struct_header(&[(0, 16)]).is_ok());
    assert_eq!(decode_union_nested::<Shape>(&mut decoder, root), Ok(Shape::Side(9)));
}

#[test]
fn decode_union_inline_reads_the_cell_at_the_next_multiple_of_8() {
    let mut buffer = vec![0u8; 32];
    buffer[0] = 32;
    buffer[8] = 0xEE;
    buffer[16] = 16;
    buffer[20] = 3;
    buffer[24] = 1;
    let mut decoder = Decoder::new(&buffer, Vec::new());
    let root = decoder.claim(0).unwrap();
    assert!(decoder.get_mut(&root).decode_struct_header(&[(0, 32)]).is_ok());
    assert_eq!(decoder.get_mut(&root).decode::<u8>(), 0xEE);
    assert_eq!(decode_union_inline::<Shape>(&mut decoder, root), Ok(Shape::Flag(true)));
}

#[test]
fn union_takes_a_cell_in_place_and_a_pointer_in_a_union() {
    assert_eq!(union_embed_size(&Context::default()), Bits(128));
    assert_eq!(union_embed_size(&Context::default().set_is_union(true)), Bits(64));
    assert_eq!(Shape::Side(1).compute_size(Context::default()), 0);
    assert_eq!(Shape::Side(1).compute_size(Context::default().set_is_union(true)), 16);
    assert_eq!(Shape::mojom_type(), MojomType::Union);
}
