//! The cursors, the encoder and the decoder, taken by themselves.

use mojo_bindings::bits::{
    align_bytes, align_default, Bits, BYTE_ALIGNMENT, DATA_HEADER_SIZE, MAP_SIZE,
    MOJOM_NULL_HANDLE, MOJOM_NULL_POINTER, POINTER_BIT_SIZE, UNION_INLINE_EMBED_SIZE,
    UNION_NESTED_EMBED_SIZE, UNION_SIZE,
};
use mojo_bindings::data::{
    Array, ArrayHeader, HandleRef, InterfaceData, MapData, Pointer, StructHeader,
    UNION_DATA_SIZE, UNION_INNER_SIZE,
};
use mojo_bindings::decoding::{Decoder, DecodingState, ValidationError};
use mojo_bindings::encoding::{Context, DataHeader, DataHeaderValue, Encoder};
use mojo_bindings::mojom::{MojomEncodable, MojomPointer, MojomType};
use mojo_bindings::numeric::{bytes_of, value_of, MojomNumeric};
use mojo_bindings::system::{
    acquire, CastHandle, Consumer, Handle, HandleKind, MessageEndpoint, Producer, SharedBuffer,
    UntypedHandle,
};

#[test]
fn alignment_rounds_up_to_the_next_multiple() {
    assert_eq!(align_default(0), 0);
    assert_eq!(align_default(1), 8);
    assert_eq!(align_default(8), 8);
    assert_eq!(align_default(13), 16);
    assert_eq!(align_default(24), 24);
    assert_eq!(align_bytes(5, 4), 8);
    assert_eq!(align_bytes(4, 4), 4);
    assert_eq!(align_bytes(7, 1), 7);
    assert_eq!(align_bytes(9, 2), 10);
    for n in 0..100usize {
        assert_eq!(align_default(n), (n + 7) & !7);
    }
}

#[test]
fn constants_of_the_format() {
    assert_eq!(BYTE_ALIGNMENT, 8);
    assert_eq!(DATA_HEADER_SIZE, 8);
    assert_eq!(UNION_SIZE, 16);
    assert_eq!(MAP_SIZE, 24);
    assert_eq!(POINTER_BIT_SIZE, 64);
    assert_eq!(UNION_NESTED_EMBED_SIZE, 64);
    assert_eq!(UNION_INLINE_EMBED_SIZE, 128);
    assert_eq!(MOJOM_NULL_POINTER, 0);
    assert_eq!(MOJOM_NULL_HANDLE, u32::MAX);
    assert_eq!(UNION_DATA_SIZE, 16);
    assert_eq!(UNION_INNER_SIZE, 8);
}

#[test]
fn bits_count_whole_bytes() {
    assert_eq!(Bits(0).as_bytes(), 0);
    assert_eq!(Bits(1).as_bytes(), 1);
    assert_eq!(Bits(8).as_bytes(), 1);
    assert_eq!(Bits(9).as_bytes(), 2);
    assert_eq!(Bits(19).as_bits_and_bytes(), (Bits(3), 2));
    assert_eq!(Bits(16).as_bits_and_bytes(), (Bits(0), 2));
    assert_eq!(Bits(5).checked_add(Bits(6)), Some(Bits(11)));
    assert_eq!(Bits(usize::MAX).checked_add(Bits(1)), None);
    assert_eq!(Bits(12).checked_mul(3), Some(Bits(36)));
    assert_eq!(Bits(0).checked_mul(usize::MAX), Some(Bits(0)));
    assert_eq!(Bits(usize::MAX / 2 + 1).checked_mul(2), None);
}

#[test]
fn pointers_and_references_know_their_null() {
    let pointer: Pointer<u8> = Pointer::new(16);
    assert!(!pointer.is_null());
    assert_eq!(pointer.target(8), Some(24));
    assert_eq!(pointer.clone().offset, 16);
    let null: Pointer<u8> = Pointer::new(0);
    assert!(null.is_null());
    assert_eq!(null.target(8), None);
    let far: Pointer<u8> = Pointer::new(u64::MAX);
    assert_eq!(far.target(1), None);
    assert_eq!(far.target(0), Some(u64::MAX));
    assert!(HandleRef::null().is_null());
    assert_eq!(HandleRef::null().index, u32::MAX);
    assert!(!HandleRef { index: 0 }.is_null());
    assert!(InterfaceData::null().is_null());
    assert_eq!(InterfaceData::null().version, 0);
    assert!(!InterfaceData { handle: HandleRef { index: 2 }, version: 1 }.is_null());
}

#[test]
fn layout_types_hold_what_lies_in_a_message() {
    let array = Array { header: ArrayHeader { size: 11, num_elems: 3 }, elems: vec![1u8, 2, 3] };
    assert_eq!(array.header.size as usize, 8 + array.elems.len());
    let map: MapData<u8, u16> = MapData {
        header: StructHeader { size: 24, version: 0 },
        keys: Pointer::new(16),
        vals: Pointer::new(24),
    };
    assert_eq!(map.header, StructHeader { size: 24, version: 0 });
    assert_eq!(map.keys.target(8), Some(24));
    assert_eq!(map.vals.target(16), Some(40));
}

#[test]
fn integers_are_written_least_byte_first() {
    assert_eq!(0x12u8.wire_bytes(), vec![0x12]);
    assert_eq!((-2i8).wire_bytes(), vec![0xFE]);
    assert_eq!(0x1234u16.wire_bytes(), vec![0x34, 0x12]);
    assert_eq!((-2i16).wire_bytes(), vec![0xFE, 0xFF]);
    assert_eq!(0x1234_5678u32.wire_bytes(), vec![0x78, 0x56, 0x34, 0x12]);
    assert_eq!((-2i32).wire_bytes(), vec![0xFE, 0xFF, 0xFF, 0xFF]);
    assert_eq!(
        0x0102_0304_0506_0708u64.wire_bytes(),
        vec![0x08, 0x07, 0x06, 0x05, 0x04, 0x03, 0x02, 0x01]
    );
    assert_eq!((-2i64).wire_bytes(), vec![0xFE, 0xFF, 0xFF, 0xFF, 0xFF, 0xFF, 0xFF, 0xFF]);
    assert_eq!(u8::from_wire_bytes(&[0x12]), 0x12);
    assert_eq!(i8::from_wire_bytes(&[0xFE]), -2);
    assert_eq!(u16::from_wire_bytes(&[0x34, 0x12]), 0x1234);
    assert_eq!(i16::from_wire_bytes(&[0xFE, 0xFF]), -2);
    assert_eq!(u32::from_wire_bytes(&[0x78, 0x56, 0x34, 0x12]), 0x1234_5678);
    assert_eq!(i32::from_wire_bytes(&[0xFE, 0xFF, 0xFF, 0xFF]), -2);
    assert_eq!(u64::from_wire_bytes(&[8, 7, 6, 5, 4, 3, 2, 1]), 0x0102_0304_0506_0708);
    assert_eq!(i64::from_wire_bytes(&[0xFE, 0xFF, 0xFF, 0xFF, 0xFF, 0xFF, 0xFF, 0xFF]), -2);
    assert_eq!((u8::width(), u16::width(), u32::width(), u64::width()), (1, 2, 4, 8));
    assert_eq!((i8::width(), i16::width(), i32::width(), i64::width()), (1, 2, 4, 8));
}

#[test]
fn simple_types_state_their_layout() {
    assert_eq!(u8::mojom_type(), MojomType::Simple);
    assert_eq!(u16::mojom_alignment(), 2);
    assert_eq!(i64::mojom_alignment(), 8);
    assert_eq!(u32::embed_size(&Context::default()), Bits(32));
    assert_eq!(bool::embed_size(&Context::default()), Bits(1));
    assert_eq!(bool::mojom_type(), MojomType::Simple);
    assert_eq!(7u64.compute_size(Context::default()), 0);
    assert_eq!(true.compute_size(Context::default()), 0);
    assert_eq!(<Option<String>>::mojom_type(), MojomType::Pointer);
    assert_eq!(<Option<String>>::mojom_alignment(), 8);
    assert_eq!(<Option<UntypedHandle>>::embed_size(&Context::default()), Bits(32));
    assert_eq!(<Vec<u8>>::mojom_type(), MojomType::Pointer);
    assert_eq!(<[u8; 4]>::embed_size(&Context::default()), Bits(64));
    assert_eq!(UntypedHandle::mojom_type(), MojomType::Handle);
    assert_eq!(MessageEndpoint::mojom_alignment(), 4);
    assert_eq!(None::<String>.compute_size(Context::default()), 0);
    assert_eq!(Some(String::from("abc")).compute_size(Context::default()), 16);
}

#[test]
fn arrays_state_their_header_and_size() {
    let numbers = vec![1u16, 2, 3];
    assert_eq!(numbers.header_data(), DataHeaderValue::Elements(3));
    assert_eq!(numbers.serialized_size(&Context::default()), 14);
    assert_eq!(numbers.compute_size(Context::default()), 16);
    let bits = vec![true; 9];
    assert_eq!(bits.serialized_size(&Context::default()), 10);
    let texts = vec![String::from("a"), String::from("bcdefghij")];
    assert_eq!(texts.serialized_size(&Context::default()), 24);
    assert_eq!(texts.compute_size(Context::default()), 24 + 16 + 24);
    let fixed = [5u32; 4];
    assert_eq!(fixed.header_data(), DataHeaderValue::Elements(4));
    assert_eq!(fixed.serialized_size(&Context::default()), 24);
    let boxed: Box<[u8]> = vec![1u8, 2].into_boxed_slice();
    assert_eq!(boxed.serialized_size(&Context::default()), 10);
    assert_eq!(boxed.compute_size(Context::default()), 16);
    let text = String::from("hello");
    assert_eq!(text.header_data(), DataHeaderValue::Elements(5));
    assert_eq!(text.serialized_size(&Context::default()), 13);
    assert_eq!(text.compute_size(Context::default()), 16);
}

#[test]
fn context_carries_the_union_mark() {
    let context = Context::new(3, 48);
    assert_eq!((context.id(), context.offset(), context.is_union()), (3, 48, false));
    let marked = context.set_is_union(true);
    assert_eq!((marked.id(), marked.offset(), marked.is_union()), (3, 48, true));
    assert_eq!(marked.set_is_union(false), context);
    assert_eq!(Context::default(), Context::new(0, 0));
}

#[test]
fn header_is_size_then_word() {
    let header = DataHeader::new(0x0102, DataHeaderValue::Elements(7));
    assert_eq!(header.size(), 0x0102);
    assert_eq!(header.data(), 7);
    assert_eq!(header.to_bytes(), vec![2, 1, 0, 0, 7, 0, 0, 0]);
    assert_eq!(DataHeaderValue::Version(3).value(), 3);
    assert_eq!(DataHeaderValue::UnionTag(4).value(), 4);
}

#[test]
fn encoder_hands_out_regions_at_multiples_of_8() {
    let mut encoder = Encoder::new(vec![0xAAu8; 48]);
    assert_eq!(encoder.size(), 0);
    let (first, mut state, context) =
        encoder.add(&DataHeader::new(13, DataHeaderValue::Elements(5)));
    assert_eq!(first, 0);
    assert_eq!(context, Context::new(0, 0));
    assert_eq!(state.global_offset(), 0);
    assert_eq!(encoder.size(), 16);
    let (second, other, other_context) =
        encoder.add(&DataHeader::new(24, DataHeaderValue::Version(1)));
    assert_eq!(second, 16);
    assert_eq!(other_context, Context::new(1, 16));
    assert_eq!(encoder.size(), 40);
    state.encode_bytes(b"hello");
    encoder.commit(other);
    encoder.commit(state);
    let (buffer, handles) = encoder.unwrap();
    assert!(handles.is_empty());
    assert_eq!(&buffer[0..16], &[13, 0, 0, 0, 5, 0, 0, 0, b'h', b'e', b'l', b'l', b'o', 0, 0, 0]);
    assert_eq!(&buffer[16..24], &[24, 0, 0, 0, 1, 0, 0, 0]);
    assert_eq!(&buffer[24..40], &[0u8; 16]);
    // what was not handed out stays
    assert_eq!(&buffer[40..48], &[0xAAu8; 8]);
}

#[test]
fn encoder_counts_handles_from_0() {
    let mut encoder = Encoder::new(Vec::new());
    assert_eq!(encoder.add_handle(acquire(5)), 0);
    assert_eq!(encoder.add_handle(MessageEndpoint { native: 6 }.as_untyped()), 1);
    let (_, handles) = encoder.unwrap();
    assert_eq!(
        handles,
        vec![
            UntypedHandle { native: 5, kind: HandleKind::Untyped },
            UntypedHandle { native: 6, kind: HandleKind::MessagePipe },
        ]
    );
}

#[test]
fn state_aligns_each_integer_to_its_size() {
    let mut encoder = Encoder::new(vec![0u8; 40]);
    let (_, mut state, _) = encoder.add(&DataHeader::new(40, DataHeaderValue::Version(0)));
    state.encode(1u8);
    state.encode(0x0203u16);
    state.encode(4u8);
    state.encode(0x05060708u32);
    state.encode(9u8);
    state.encode(0x0A0B0C0D0E0F1011u64);
    state.encode_bool(true);
    state.encode_bool(true);
    state.align_to_byte();
    state.encode_bool(true);
    state.align_to_bytes(4);
    state.encode_bool(false);
    state.encode_bool(true);
    encoder.commit(state);
    let (buffer, _) = encoder.unwrap();
    assert_eq!(
        &buffer[8..40],
        &[
            1, 0, 3, 2, 4, 0, 0, 0, 8, 7, 6, 5, 9, 0, 0, 0, 0x11, 0x10, 0x0F, 0x0E, 0x0D, 0x0C,
            0x0B, 0x0A, 0b11, 0b1, 0, 0, 0b10, 0, 0, 0,
        ]
    );
}

#[test]
fn state_writes_pointers_as_distances_and_nulls_as_their_values() {
    let mut encoder = Encoder::new(vec![0u8; 80]);
    let (_, mut state, _) = encoder.add(&DataHeader::new(80, DataHeaderValue::Version(0)));
    state.encode(1u8);
    state.encode_pointer(72);
    state.encode_pointer(0);
    state.encode_null_pointer();
    state.encode_null_handle();
    state.encode_null_interface();
    state.encode_null_union();
    state.encode_union_header(3);
    encoder.commit(state);
    let (buffer, _) = encoder.unwrap();
    assert_eq!(&buffer[16..24], &[56, 0, 0, 0, 0, 0, 0, 0]);
    assert_eq!(&buffer[24..40], &[0u8; 16]);
    assert_eq!(&buffer[40..44], &[0xFF; 4]);
    assert_eq!(&buffer[44..52], &[0xFF, 0xFF, 0xFF, 0xFF, 0, 0, 0, 0]);
    assert_eq!(&buffer[56..72], &[0u8; 16]);
    assert_eq!(&buffer[72..80], &[16, 0, 0, 0, 3, 0, 0, 0]);
}

#[test]
fn bit_that_is_written_replaces_the_bit_that_was_there() {
    let mut encoder = Encoder::new(vec![0u8; 16]);
    let (_, mut state, _) = encoder.add(&DataHeader::new(16, DataHeaderValue::Version(0)));
    state.encode(0xFFu8);
    state.encode_bool(true);
    encoder.commit(state);
    let (_, mut again, _) = {
        let mut other = Encoder::new(vec![0u8; 16]);
        other.add(&DataHeader::new(16, DataHeaderValue::Version(0)))
    };
    again.data[8] = 0xFF;
    again.encode_bool(false);
    again.encode_bool(true);
    again.encode_bool(false);
    assert_eq!(again.data[8], 0b1111_1010);
}

fn region(bytes: &[u8]) -> DecodingState<'_> {
    DecodingState::new(bytes, 0, bytes.len())
}

#[test]
fn state_reads_what_a_state_wrote() {
    let bytes = [
        32u8, 0, 0, 0, 0, 0, 0, 0, 1, 0, 3, 2, 0b101, 0, 0, 0, 8, 0, 0, 0, 0, 0, 0, 0, 0xFE, 0xFF,
        0, 0, 0, 0, 0, 0,
    ];
    let mut state = region(&bytes);
    let header = state.decode_struct_header(&[(0, 32)]).unwrap();
    assert_eq!((header.size(), header.data()), (32, 0));
    assert_eq!(state.decode::<u8>(), 1);
    assert_eq!(state.decode::<u16>(), 0x0203);
    assert!(state.decode_bool());
    assert!(!state.decode_bool());
    assert!(state.decode_bool());
    assert_eq!(state.decode_pointer(), Ok(Some(24)));
    assert_eq!(state.decode::<i16>(), -2);
    assert_eq!(state.decode_bytes(2), &[0, 0]);
    assert_eq!(state.global_offset(), 0);
}

#[test]
fn pointer_is_nothing_or_a_place_in_the_message() {
    let mut bytes = vec![0u8; 32];
    bytes[0] = 32;
    bytes[16] = 16;
    bytes[24] = 7;
    let mut state = region(&bytes);
    assert!(state.decode_struct_header(&[(0, 32)]).is_ok());
    assert_eq!(state.decode_pointer(), Ok(None));
    // 16 + 16 is the end of the message, which is outside of it
    assert_eq!(state.decode_pointer(), Err(ValidationError::IllegalPointer));
    assert_eq!(state.decode_pointer(), Ok(Some(31)));
    let mut far = vec![0xFFu8; 16];
    far[0] = 16;
    far[1] = 0;
    far[2] = 0;
    far[3] = 0;
    let mut state = region(&far);
    state.align_to_bytes(8);
    state.decode_bytes(8);
    assert_eq!(state.decode_pointer(), Err(ValidationError::IllegalPointer));
}

#[test]
fn struct_header_must_be_a_pair_of_the_table() {
    let versions = [(0u32, 16u32), (2, 24), (3, 24)];
    let sized = |size: u8, version: u8| {
        let mut bytes = vec![0u8; size as usize];
        bytes[0] = size;
        bytes[4] = version;
        bytes
    };
    assert!(region(&sized(16, 0)).decode_struct_header(&versions).is_ok());
    assert!(region(&sized(24, 2)).decode_struct_header(&versions).is_ok());
    let bytes = sized(24, 3);
    let header = region(&bytes).decode_struct_header(&versions).unwrap();
    assert_eq!(header, DataHeader::new(24, DataHeaderValue::Version(3)));
    // a version between two that are known is not known
    assert_eq!(
        region(&sized(16, 1)).decode_struct_header(&versions),
        Err(ValidationError::UnexpectedStructHeader)
    );
    assert_eq!(
        region(&sized(24, 0)).decode_struct_header(&versions),
        Err(ValidationError::UnexpectedStructHeader)
    );
    assert_eq!(
        region(&sized(32, 4)).decode_struct_header(&versions),
        Err(ValidationError::UnexpectedStructHeader)
    );
    assert_eq!(
        region(&sized(16, 0)).decode_struct_header(&[]),
        Err(ValidationError::UnexpectedStructHeader)
    );
}

#[test]
fn array_header_must_state_the_size_of_its_elements() {
    let sized = |size: u8, elems: u8| {
        let mut bytes = vec![0u8; size as usize];
        bytes[0] = size;
        bytes[4] = elems;
        bytes
    };
    let bytes = sized(14, 3);
    let header = region(&bytes).decode_array_header::<u16>().unwrap();
    assert_eq!(header, DataHeader::new(14, DataHeaderValue::Elements(3)));
    assert!(region(&sized(10, 9)).decode_array_header::<bool>().is_ok());
    assert!(region(&sized(9, 8)).decode_array_header::<bool>().is_ok());
    assert!(region(&sized(8, 0)).decode_array_header::<u64>().is_ok());
    assert_eq!(
        region(&sized(16, 3)).decode_array_header::<u16>(),
        Err(ValidationError::UnexpectedArrayHeader)
    );
    assert_eq!(
        region(&sized(13, 3)).decode_array_header::<u16>(),
        Err(ValidationError::UnexpectedArrayHeader)
    );
    assert_eq!(
        region(&sized(9, 9)).decode_array_header::<bool>(),
        Err(ValidationError::UnexpectedArrayHeader)
    );
}

#[test]
fn null_values_are_skipped_and_others_stay() {
    let mut bytes = vec![0u8; 64];
    bytes[0] = 64;
    bytes[16] = 5;
    bytes[24] = 0xFF;
    bytes[25] = 0xFF;
    bytes[26] = 0xFF;
    bytes[27] = 0xFF;
    bytes[32] = 0xFF;
    bytes[33] = 0xFF;
    bytes[34] = 0xFF;
    bytes[35] = 0xFF;
    bytes[36] = 9;
    bytes[40] = 16;
    let mut state = region(&bytes);
    assert!(state.decode_struct_header(&[(0, 64)]).is_ok());
    assert!(state.skip_if_null_pointer());
    assert!(!state.skip_if_null_pointer());
    assert_eq!(state.decode::<u64>(), 5);
    assert!(state.skip_if_null_handle());
    assert!(!state.skip_if_null_handle());
    assert_eq!(state.decode::<u32>(), 0);
    assert!(state.skip_if_null_interface());
    assert!(!state.skip_if_null_union());
    assert_eq!(state.decode::<u32>(), 16);
    state.decode_bytes(4);
    state.decode_bytes(8);
    let mut tail = region(&bytes);
    tail.decode_bytes(48);
    assert!(tail.skip_if_null_union());
    let mut cell = vec![0u8; 24];
    cell[0] = 24;
    cell[23] = 1;
    let mut state = region(&cell);
    state.decode_bytes(8);
    // a cell with one byte that is not zero is no null union
    assert!(!state.skip_if_null_union());
}

#[test]
fn decoder_claims_regions_in_their_order() {
    let mut bytes = vec![0u8; 48];
    bytes[0] = 16;
    bytes[16] = 12;
    bytes[32] = 16;
    let mut decoder = Decoder::new(&bytes, Vec::new());
    assert_eq!(decoder.claim(4), Err(ValidationError::IllegalPointer));
    assert_eq!(decoder.claim(48), Err(ValidationError::IllegalPointer));
    assert_eq!(decoder.claim(44), Err(ValidationError::IllegalPointer));
    assert_eq!(decoder.claim(16), Ok(Context::new(0, 16)));
    // backward, and into what was claimed
    assert_eq!(decoder.claim(0), Err(ValidationError::IllegalPointer));
    assert_eq!(decoder.claim(16), Err(ValidationError::IllegalPointer));
    assert_eq!(decoder.claim(24), Err(ValidationError::IllegalPointer));
    assert_eq!(decoder.claim(32), Ok(Context::new(1, 32)));
    assert_eq!(decoder.get_mut(&Context::new(0, 16)).decode::<u32>(), 12);
    assert_eq!(decoder.get_mut(&Context::new(1, 32)).global_offset(), 32);
}

#[test]
fn decoder_refuses_regions_that_do_not_fit() {
    let mut bytes = vec![0u8; 24];
    bytes[0] = 7;
    bytes[8] = 17;
    let mut decoder = Decoder::new(&bytes, Vec::new());
    // shorter than its header
    assert_eq!(decoder.claim(0), Err(ValidationError::IllegalPointer));
    // longer than what is left of the message
    assert_eq!(decoder.claim(8), Err(ValidationError::IllegalPointer));
    bytes[8] = 16;
    let mut decoder = Decoder::new(&bytes, Vec::new());
    assert_eq!(decoder.claim(8), Ok(Context::new(0, 8)));
}

#[test]
fn handles_are_claimed_once_and_by_their_kind() {
    let handles = vec![
        acquire(1),
        MessageEndpoint { native: 2 }.as_untyped(),
        SharedBuffer { native: 3 }.as_untyped(),
        Consumer { native: 4 }.as_untyped(),
        Producer { native: 5 }.as_untyped(),
    ];
    let mut decoder = Decoder::new(&[], handles);
    assert_eq!(decoder.unclaimed_handles(), 5);
    assert_eq!(decoder.claim_handle::<UntypedHandle>(5), Err(ValidationError::IllegalHandle));
    assert_eq!(decoder.claim_handle::<UntypedHandle>(u32::MAX), Err(ValidationError::IllegalHandle));
    assert_eq!(decoder.claim_handle::<MessageEndpoint>(0), Err(ValidationError::IllegalHandle));
    assert_eq!(decoder.claim_handle::<SharedBuffer>(1), Err(ValidationError::IllegalHandle));
    assert_eq!(decoder.claim_handle::<Consumer>(4), Err(ValidationError::IllegalHandle));
    assert_eq!(decoder.claim_handle::<Producer>(3), Err(ValidationError::IllegalHandle));
    assert_eq!(decoder.unclaimed_handles(), 5);
    assert_eq!(decoder.claim_handle::<SharedBuffer>(2), Ok(SharedBuffer { native: 3 }));
    assert_eq!(decoder.claim_handle::<SharedBuffer>(2), Err(ValidationError::IllegalHandle));
    assert_eq!(decoder.claim_handle::<MessageEndpoint>(1), Ok(MessageEndpoint { native: 2 }));
    assert_eq!(decoder.claim_handle::<Producer>(4), Ok(Producer { native: 5 }));
    assert_eq!(decoder.claim_handle::<Consumer>(3), Ok(Consumer { native: 4 }));
    assert_eq!(decoder.claim_handle::<UntypedHandle>(0), Ok(acquire(1)));
    assert_eq!(decoder.unclaimed_handles(), 0);
}

#[test]
fn untyped_handle_is_claimed_whatever_its_kind() {
    let mut decoder = Decoder::new(&[], vec![Producer { native: 5 }.as_untyped()]);
    assert_eq!(
        decoder.claim_handle::<UntypedHandle>(0),
        Ok(UntypedHandle { native: 5, kind: HandleKind::DataPipeProducer })
    );
}

#[test]
fn handles_keep_their_identity_through_casts() {
    let pipe = MessageEndpoint { native: 9 };
    assert_eq!(pipe.get_native_handle(), 9);
    let untyped = pipe.as_untyped();
    assert_eq!(untyped.get_native_handle(), 9);
    assert_eq!(untyped.kind, HandleKind::MessagePipe);
    assert!(MessageEndpoint::accepts(untyped.kind));
    assert!(!SharedBuffer::accepts(untyped.kind));
    assert!(!Consumer::accepts(untyped.kind));
    assert!(!Producer::accepts(untyped.kind));
    assert!(UntypedHandle::accepts(untyped.kind));
    assert_eq!(MessageEndpoint::from_untyped(untyped), MessageEndpoint { native: 9 });
    assert_eq!(SharedBuffer::from_untyped(SharedBuffer { native: 1 }.as_untyped()).native, 1);
    assert_eq!(Consumer::from_untyped(Consumer { native: 2 }.as_untyped()).get_native_handle(), 2);
    assert_eq!(Producer::from_untyped(Producer { native: 3 }.as_untyped()).get_native_handle(), 3);
    assert_eq!(SharedBuffer { native: 4 }.get_native_handle(), 4);
    assert!(acquire(1).is_valid());
    assert!(!acquire(0).is_valid());
    assert_eq!(UntypedHandle::from_untyped(acquire(6)).as_untyped(), acquire(6));
}

#[test]
fn handles_that_were_not_claimed_are_given_back_in_their_order() {
    let handles = vec![acquire(1), acquire(2), acquire(3), acquire(4)];
    let mut decoder = Decoder::new(&[], handles);
    assert_eq!(decoder.claim_handle::<UntypedHandle>(2), Ok(acquire(3)));
    assert_eq!(decoder.claim_handle::<UntypedHandle>(0), Ok(acquire(1)));
    assert_eq!(decoder.claim_handle::<MessageEndpoint>(1), Err(ValidationError::IllegalHandle));
    assert_eq!(decoder.into_unclaimed(), vec![acquire(2), acquire(4)]);
    assert!(Decoder::new(&[], Vec::new()).into_unclaimed().is_empty());
}

#[test]
fn message_that_is_refused_keeps_the_handles_that_were_not_claimed() {
    let values = vec![acquire(7), acquire(8), acquire(9)];
    let size = values.compute_size(Context::default());
    let mut encoder = Encoder::new(vec![0u8; size]);
    let _ = values.encode_new(&mut encoder, Context::default());
    let (mut buffer, handles) = encoder.unwrap();
    // the third element asks for the first handle again
    buffer[16] = 0;
    let mut decoder = Decoder::new(&buffer, handles);
    assert_eq!(
        <Vec<UntypedHandle>>::decode_new(&mut decoder, Context::default(), 0),
        Err(ValidationError::IllegalHandle)
    );
    assert_eq!(decoder.into_unclaimed(), vec![acquire(9)]);
}

#[test]
fn message_that_was_read_has_no_handle_left() {
    let values = vec![Some(acquire(7)), None, Some(acquire(9))];
    let size = values.compute_size(Context::default());
    assert_eq!(size, 24);
    let mut encoder = Encoder::new(vec![0u8; size]);
    let _ = values.encode_new(&mut encoder, Context::default());
    let (buffer, handles) = encoder.unwrap();
    assert_eq!(handles, vec![acquire(7), acquire(9)]);
    let mut decoder = Decoder::new(&buffer, handles);
    assert_eq!(
        <Vec<Option<UntypedHandle>>>::decode_new(&mut decoder, Context::default(), 0),
        Ok(vec![Some(acquire(7)), None, Some(acquire(9))])
    );
    assert_eq!(decoder.unclaimed_handles(), 0);
    assert!(decoder.into_unclaimed().is_empty());
}

#[test]
fn numbers_are_taken_apart_and_put_together_byte_by_byte() {
    assert_eq!(bytes_of(0, 0), Vec::<u8>::new());
    assert_eq!(bytes_of(0x0102_03, 3), vec![3, 2, 1]);
    assert_eq!(bytes_of(0xFF, 1), vec![0xFF]);
    assert_eq!(bytes_of(u64::MAX, 8), vec![0xFF; 8]);
    assert_eq!(bytes_of(1, 8), vec![1, 0, 0, 0, 0, 0, 0, 0]);
    assert_eq!(value_of(&[]), 0);
    assert_eq!(value_of(&[3, 2, 1]), 0x0102_03);
    assert_eq!(value_of(&[0xFF; 8]), u64::MAX);
    assert_eq!(value_of(&[0, 0, 0, 0, 0, 0, 0, 0x80]), 1 << 63);
}

#[test]
fn least_and_greatest_integers_keep_their_bytes() {
    assert_eq!(i8::MIN.wire_bytes(), vec![0x80]);
    assert_eq!(i8::from_wire_bytes(&[0x80]), i8::MIN);
    assert_eq!(i8::from_wire_bytes(&[0x7F]), i8::MAX);
    assert_eq!(i16::MIN.wire_bytes(), vec![0, 0x80]);
    assert_eq!(i16::from_wire_bytes(&[0xFF, 0x7F]), i16::MAX);
    assert_eq!(i32::MIN.wire_bytes(), vec![0, 0, 0, 0x80]);
    assert_eq!(i32::from_wire_bytes(&[0, 0, 0, 0x80]), i32::MIN);
    assert_eq!(i64::MIN.wire_bytes(), vec![0, 0, 0, 0, 0, 0, 0, 0x80]);
    assert_eq!(i64::from_wire_bytes(&[0, 0, 0, 0, 0, 0, 0, 0x80]), i64::MIN);
    assert_eq!(i64::from_wire_bytes(&[0xFF, 0xFF, 0xFF, 0xFF, 0xFF, 0xFF, 0xFF, 0x7F]), i64::MAX);
    assert_eq!(u64::MAX.wire_bytes(), vec![0xFF; 8]);
    assert_eq!(u32::from_wire_bytes(&[0xFF; 4]), u32::MAX);
    assert_eq!((-1i64).wire_bytes(), vec![0xFF; 8]);
}

#[test]
fn interface_reference_is_written_in_one_piece() {
    let mut encoder = Encoder::new(vec![0u8; 24]);
    let (_, mut state, _) = encoder.add(&DataHeader::new(24, DataHeaderValue::Version(0)));
    state.encode(7u8);
    state.encode_interface_data(InterfaceData { handle: HandleRef { index: 3 }, version: 9 });
    encoder.commit(state);
    let (buffer, _) = encoder.unwrap();
    assert_eq!(&buffer[8..20], &[7, 0, 0, 0, 3, 0, 0, 0, 9, 0, 0, 0]);
}
