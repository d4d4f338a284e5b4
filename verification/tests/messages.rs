//! The envelope of messages, and interfaces that send and receive them.

use mojo_bindings::bits::{align_default, Bits};
use mojo_bindings::cursor::Cursor;
use mojo_bindings::decoding::{Decoder, DecoderView, ValidationError};
use mojo_bindings::encoding::{Context, DataHeaderValue, Encoder, EncoderView, EncodingState};
use mojo_bindings::mojom::{
    decode_as_pointer, encode_as_pointer, Decoded, MojomEncodable, MojomPointer, MojomStruct,
    MojomType, MojomValue,
};
use mojo_bindings::system::UntypedHandle;
use vstd::prelude::nat;
use vstd::seq::Seq;
use vstd::view::DeepView;
use mojo_bindings::interface::{
    decode_interface, encode_interface, write_outcome, MojomInterface, MojomInterfaceRecv,
    MojomInterfaceSend, MojomMessage, MojomMessageOption, MojomRecvError, MojomSendError,
};
use mojo_bindings::message::{
    MessageHeader, MESSAGE_HEADER_EXPECT_RESPONSE, MESSAGE_HEADER_IS_RESPONSE,
    MESSAGE_HEADER_NO_FLAG,
};
use mojo_bindings::system::{MessageEndpoint, MojoResult};

#[derive(Debug, PartialEq)]
struct Ping {
    value: u32,
}

const PING_VERSIONS: [(u32, u32); 1] = [(0, 16)];

impl DeepView for Ping {
    type V = Ping;

    fn deep_view(&self) -> Ping {
        unreachable!()
    }
}

impl MojomValue for Ping {
    fn spec_mojom_type() -> MojomType {
        unreachable!()
    }

    fn spec_align_bits() -> nat {
        unreachable!()
    }

    fn spec_embed_size(_is_union: bool) -> nat {
        unreachable!()
    }

    fn spec_compute_size(&self, _is_union: bool) -> nat {
        unreachable!()
    }

    fn spec_handles(&self) -> Seq<UntypedHandle> {
        unreachable!()
    }

    fn spec_encodable(&self, _is_union: bool) -> bool {
        unreachable!()
    }

    fn spec_canonical(&self) -> bool {
        unreachable!()
    }
}

impl MojomEncodable for Ping {
    fn spec_encode(
        &self,
        _encoder: EncoderView,
        _state: Cursor,
        _is_union: bool,
    ) -> (EncoderView, Cursor) {
        unreachable!()
    }

    fn spec_decode(_decoder: DecoderView, _context: Context) -> Decoded<Ping> {
        unreachable!()
    }

    fn mojom_type() -> MojomType {
        MojomType::Pointer
    }

    fn mojom_alignment() -> usize {
        8
    }

    fn embed_size(_context: &Context) -> Bits {
        Bits(64)
    }

    fn compute_size(&self, context: Context) -> usize {
        align_default(self.serialized_size(&context)) + self.value.compute_size(context)
    }

    fn encode(self, encoder: &mut Encoder, state: &mut EncodingState, context: Context) {
        encode_as_pointer(self, encoder, state, context)
    }

    fn decode(decoder: &mut Decoder, context: Context) -> Result<Self, ValidationError> {
        decode_as_pointer(decoder, context)
    }
}

impl MojomPointer for Ping {
    fn spec_header_data(&self) -> DataHeaderValue {
        unreachable!()
    }

    fn spec_serialized_size(&self) -> nat {
        unreachable!()
    }

    fn spec_encode_value(&self, _encoder: EncoderView, _state: Cursor) -> (EncoderView, Cursor) {
        unreachable!()
    }

    fn spec_decode_value(_decoder: DecoderView, _context: Context) -> Decoded<Ping> {
        unreachable!()
    }

    fn header_data(&self) -> DataHeaderValue {
        DataHeaderValue::Version(0)
    }

    fn serialized_size(&self, _context: &Context) -> usize {
        16
    }

    fn encode_value(self, encoder: &mut Encoder, state: &mut EncodingState, context: Context) {
        self.value.encode(encoder, state, context);
    }

    fn decode_value(decoder: &mut Decoder, context: Context) -> Result<Self, ValidationError> {
        decoder.get_mut(&context).decode_struct_header(&PING_VERSIONS)?;
        let value = <u32>::decode(decoder, context)?;
        Ok(Ping { value })
    }
}

impl MojomStruct for Ping {}

impl MojomMessage for Ping {
    fn spec_min_version() -> u32 {
        unreachable!()
    }

    fn spec_header() -> MessageHeader {
        unreachable!()
    }

    fn min_version() -> u32 {
        2
    }

    fn create_header() -> MessageHeader {
        MessageHeader::with_request_id(5, MESSAGE_HEADER_EXPECT_RESPONSE, 0)
    }
}

#[derive(Debug, PartialEq)]
struct Notice {
    text: String,
}

const NOTICE_VERSIONS: [(u32, u32); 1] = [(0, 16)];

impl DeepView for Notice {
    type V = Notice;

    fn deep_view(&self) -> Notice {
        unreachable!()
    }
}

impl MojomValue for Notice {
    fn spec_mojom_type() -> MojomType {
        unreachable!()
    }

    fn spec_align_bits() -> nat {
        unreachable!()
    }

    fn spec_embed_size(_is_union: bool) -> nat {
        unreachable!()
    }

    fn spec_compute_size(&self, _is_union: bool) -> nat {
        unreachable!()
    }

    fn spec_handles(&self) -> Seq<UntypedHandle> {
        unreachable!()
    }

    fn spec_encodable(&self, _is_union: bool) -> bool {
        unreachable!()
    }

    fn spec_canonical(&self) -> bool {
        unreachable!()
    }
}

impl MojomEncodable for Notice {
    fn spec_encode(
        &self,
        _encoder: EncoderView,
        _state: Cursor,
        _is_union: bool,
    ) -> (EncoderView, Cursor) {
        unreachable!()
    }

    fn spec_decode(_decoder: DecoderView, _context: Context) -> Decoded<Notice> {
        unreachable!()
    }

    fn mojom_type() -> MojomType {
        MojomType::Pointer
    }

    fn mojom_alignment() -> usize {
        8
    }

    fn embed_size(_context: &Context) -> Bits {
        Bits(64)
    }

    fn compute_size(&self, context: Context) -> usize {
        align_default(self.serialized_size(&context)) + self.text.compute_size(context)
    }

    fn encode(self, encoder: &mut Encoder, state: &mut EncodingState, context: Context) {
        encode_as_pointer(self, encoder, state, context)
    }

    fn decode(decoder: &mut Decoder, context: Context) -> Result<Self, ValidationError> {
        decode_as_pointer(decoder, context)
    }
}

impl MojomPointer for Notice {
    fn spec_header_data(&self) -> DataHeaderValue {
        unreachable!()
    }

    fn spec_serialized_size(&self) -> nat {
        unreachable!()
    }

    fn spec_encode_value(&self, _encoder: EncoderView, _state: Cursor) -> (EncoderView, Cursor) {
        unreachable!()
    }

    fn spec_decode_value(_decoder: DecoderView, _context: Context) -> Decoded<Notice> {
        unreachable!()
    }

    fn header_data(&self) -> DataHeaderValue {
        DataHeaderValue::Version(0)
    }

    fn serialized_size(&self, _context: &Context) -> usize {
        16
    }

    fn encode_value(self, encoder: &mut Encoder, state: &mut EncodingState, context: Context) {
        self.text.encode(encoder, state, context);
    }

    fn decode_value(decoder: &mut Decoder, context: Context) -> Result<Self, ValidationError> {
        decoder.get_mut(&context).decode_struct_header(&NOTICE_VERSIONS)?;
        let text = <String>::decode(decoder, context)?;
        Ok(Notice { text })
    }
}

impl MojomStruct for Notice {}

impl MojomMessage for Notice {
    fn spec_min_version() -> u32 {
        unreachable!()
    }

    fn spec_header() -> MessageHeader {
        unreachable!()
    }

    fn min_version() -> u32 {
        0
    }

    fn create_header() -> MessageHeader {
        MessageHeader::new(6, MESSAGE_HEADER_NO_FLAG)
    }
}

#[derive(Debug, PartialEq)]
struct Service {
    pipe: MessageEndpoint,
    version: u32,
}

impl DeepView for Service {
    type V = Service;

    fn deep_view(&self) -> Service {
        unreachable!()
    }
}

impl MojomValue for Service {
    fn spec_mojom_type() -> MojomType {
        unreachable!()
    }

    fn spec_align_bits() -> nat {
        unreachable!()
    }

    fn spec_embed_size(_is_union: bool) -> nat {
        unreachable!()
    }

    fn spec_compute_size(&self, _is_union: bool) -> nat {
        unreachable!()
    }

    fn spec_handles(&self) -> Seq<UntypedHandle> {
        unreachable!()
    }

    fn spec_encodable(&self, _is_union: bool) -> bool {
        unreachable!()
    }

    fn spec_canonical(&self) -> bool {
        unreachable!()
    }
}

impl MojomEncodable for Service {
    fn spec_encode(
        &self,
        _encoder: EncoderView,
        _state: Cursor,
        _is_union: bool,
    ) -> (EncoderView, Cursor) {
        unreachable!()
    }

    fn spec_decode(_decoder: DecoderView, _context: Context) -> Decoded<Service> {
        unreachable!()
    }

    fn mojom_type() -> MojomType {
        MojomType::Interface
    }

    fn mojom_alignment() -> usize {
        4
    }

    fn embed_size(_context: &Context) -> Bits {
        Bits(64)
    }

    fn compute_size(&self, _context: Context) -> usize {
        0
    }

    fn encode(self, encoder: &mut Encoder, state: &mut EncodingState, _context: Context) {
        encode_interface(self, encoder, state)
    }

    fn decode(decoder: &mut Decoder, context: Context) -> Result<Self, ValidationError> {
        let (pipe, version) = decode_interface(decoder, context)?;
        Ok(Service { pipe, version })
    }
}

impl MojomInterface for Service {
    fn spec_version(&self) -> u32 {
        unreachable!()
    }

    fn spec_pipe(&self) -> MessageEndpoint {
        unreachable!()
    }

    fn service_name() -> &'static str {
        "test::Service"
    }

    fn version(&self) -> u32 {
        self.version
    }

    fn pipe(&self) -> &MessageEndpoint {
        &self.pipe
    }

    fn unwrap(self) -> MessageEndpoint {
        self.pipe
    }
}

impl MojomInterfaceSend<Ping> for Service {}

impl MojomInterfaceSend<Notice> for Service {}

#[derive(Debug, PartialEq)]
enum Incoming {
    Ping(Ping),
    Notice(Notice),
}

impl DeepView for Incoming {
    type V = Incoming;

    fn deep_view(&self) -> Incoming {
        unreachable!()
    }
}

impl MojomMessageOption for Incoming {
    fn spec_decode_payload(
        _header: MessageHeader,
        _buffer: Seq<u8>,
        _handles: Seq<UntypedHandle>,
    ) -> Option<Result<Incoming, ValidationError>> {
        unreachable!()
    }

    fn decode_payload(
        header: MessageHeader,
        buffer: &[u8],
        handles: Vec<UntypedHandle>,
    ) -> Result<Self, ValidationError> {
        match header.name {
            5 => Ok(Incoming::Ping(Ping::deserialize(buffer, handles)?)),
            6 => Ok(Incoming::Notice(Notice::deserialize(buffer, handles)?)),
            _ => Err(ValidationError::UnexpectedStructHeader),
        }
    }
}

impl MojomInterfaceRecv for Service {
    type Container = Incoming;
}

#[derive(Debug, PartialEq)]
struct Offer {
    service: Service,
    spare: Option<Service>,
}

const OFFER_VERSIONS: [(u32, u32); 1] = [(0, 24)];

impl DeepView for Offer {
    type V = Offer;

    fn deep_view(&self) -> Offer {
        unreachable!()
    }
}

impl MojomValue for Offer {
    fn spec_mojom_type() -> MojomType {
        unreachable!()
    }

    fn spec_align_bits() -> nat {
        unreachable!()
    }

    fn spec_embed_size(_is_union: bool) -> nat {
        unreachable!()
    }

    fn spec_compute_size(&self, _is_union: bool) -> nat {
        unreachable!()
    }

    fn spec_handles(&self) -> Seq<UntypedHandle> {
        unreachable!()
    }

    fn spec_encodable(&self, _is_union: bool) -> bool {
        unreachable!()
    }

    fn spec_canonical(&self) -> bool {
        unreachable!()
    }
}

impl MojomEncodable for Offer {
    fn spec_encode(
        &self,
        _encoder: EncoderView,
        _state: Cursor,
        _is_union: bool,
    ) -> (EncoderView, Cursor) {
        unreachable!()
    }

    fn spec_decode(_decoder: DecoderView, _context: Context) -> Decoded<Offer> {
        unreachable!()
    }

    fn mojom_type() -> MojomType {
        MojomType::Pointer
    }

    fn mojom_alignment() -> usize {
        8
    }

    fn embed_size(_context: &Context) -> Bits {
        Bits(64)
    }

    fn compute_size(&self, context: Context) -> usize {
        align_default(self.serialized_size(&context))
            + self.service.compute_size(context)
            + self.spare.compute_size(context)
    }

    fn encode(self, encoder: &mut Encoder, state: &mut EncodingState, context: Context) {
        encode_as_pointer(self, encoder, state, context)
    }

    fn decode(decoder: &mut Decoder, context: Context) -> Result<Self, ValidationError> {
        decode_as_pointer(decoder, context)
    }
}

impl MojomPointer for Offer {
    fn spec_header_data(&self) -> DataHeaderValue {
        unreachable!()
    }

    fn spec_serialized_size(&self) -> nat {
        unreachable!()
    }

    fn spec_encode_value(&self, _encoder: EncoderView, _state: Cursor) -> (EncoderView, Cursor) {
        unreachable!()
    }

    fn spec_decode_value(_decoder: DecoderView, _context: Context) -> Decoded<Offer> {
        unreachable!()
    }

    fn header_data(&self) -> DataHeaderValue {
        DataHeaderValue::Version(0)
    }

    fn serialized_size(&self, _context: &Context) -> usize {
        24
    }

    fn encode_value(self, encoder: &mut Encoder, state: &mut EncodingState, context: Context) {
        self.service.encode(encoder, state, context);
        self.spare.encode(encoder, state, context);
    }

    fn decode_value(decoder: &mut Decoder, context: Context) -> Result<Self, ValidationError> {
        decoder.get_mut(&context).decode_struct_header(&OFFER_VERSIONS)?;
        let service = <Service>::decode(decoder, context)?;
        let spare = <Option<Service>>::decode(decoder, context)?;
        Ok(Offer { service, spare })
    }
}

impl MojomStruct for Offer {}

#[test]
fn header_without_request_id_takes_24_bytes() {
    let header = MessageHeader::new(0x0102, MESSAGE_HEADER_IS_RESPONSE);
    assert_eq!(header.compute_size(Context::default()), 24);
    let (buffer, handles) = header.auto_serialize();
    assert!(handles.is_empty());
    assert_eq!(
        buffer,
        vec![24, 0, 0, 0, 0, 0, 0, 0, 0, 0, 0, 0, 2, 1, 0, 0, 2, 0, 0, 0, 0, 0, 0, 0]
    );
    assert_eq!(MessageHeader::deserialize(&buffer, Vec::new()), Ok(header));
}

#[test]
fn header_with_request_id_takes_32_bytes() {
    let mut header = MessageHeader::with_request_id(7, MESSAGE_HEADER_EXPECT_RESPONSE, 0x0A0B0C);
    header.interface_id = 3;
    let (buffer, _) = header.auto_serialize();
    assert_eq!(
        buffer,
        vec![
            32, 0, 0, 0, 1, 0, 0, 0, 3, 0, 0, 0, 7, 0, 0, 0, 1, 0, 0, 0, 0, 0, 0, 0, 0x0C, 0x0B,
            0x0A, 0, 0, 0, 0, 0,
        ]
    );
    assert_eq!(MessageHeader::deserialize(&buffer, Vec::new()), Ok(header));
}

#[test]
fn header_of_a_version_with_another_size_is_refused() {
    let (mut buffer, _) = MessageHeader::with_request_id(7, 0, 1).auto_serialize();
    buffer[4] = 0;
    assert_eq!(
        MessageHeader::deserialize(&buffer, Vec::new()),
        Err(ValidationError::UnexpectedStructHeader)
    );
    buffer[4] = 2;
    assert_eq!(
        MessageHeader::deserialize(&buffer, Vec::new()),
        Err(ValidationError::UnexpectedStructHeader)
    );
}

#[test]
fn request_is_the_header_and_the_payload_each_a_message_of_its_own() {
    let service = Service { pipe: MessageEndpoint { native: 1 }, version: 2 };
    let (buffer, handles) = service.create_request(0x99, Ping { value: 0x55 });
    assert!(handles.is_empty());
    assert_eq!(buffer.len(), 32 + 16);
    assert_eq!(&buffer[0..8], &[32, 0, 0, 0, 1, 0, 0, 0]);
    assert_eq!(&buffer[12..20], &[5, 0, 0, 0, 1, 0, 0, 0]);
    assert_eq!(&buffer[24..32], &[0x99, 0, 0, 0, 0, 0, 0, 0]);
    assert_eq!(&buffer[32..48], &[16, 0, 0, 0, 0, 0, 0, 0, 0x55, 0, 0, 0, 0, 0, 0, 0]);
    assert_eq!(
        Incoming::decode_message(buffer, handles),
        Ok((0x99, Incoming::Ping(Ping { value: 0x55 })))
    );
}

#[test]
fn request_with_a_pointer_in_the_payload_round_trips() {
    let service = Service { pipe: MessageEndpoint { native: 1 }, version: 0 };
    let message = service.send_request(4, Notice { text: String::from("note") });
    let (buffer, handles) = message.unwrap();
    assert_eq!(buffer.len(), 24 + 16 + 16);
    // the header of version 0 carries no request id
    assert_eq!(
        Incoming::decode_message(buffer, handles),
        Ok((0, Incoming::Notice(Notice { text: String::from("note") })))
    );
}

#[test]
fn message_for_a_later_version_is_not_sent() {
    let service = Service { pipe: MessageEndpoint { native: 1 }, version: 1 };
    assert_eq!(
        service.send_request(1, Ping { value: 1 }),
        Err(MojomSendError::OldVersion(1, 2))
    );
    let current = Service { pipe: MessageEndpoint { native: 1 }, version: 2 };
    assert!(current.send_request(1, Ping { value: 1 }).is_ok());
}

#[test]
fn outcome_of_a_write_is_success_for_code_0_only() {
    assert_eq!(write_outcome(MojoResult(0)), Ok(()));
    assert_eq!(write_outcome(MojoResult(17)), Err(MojomSendError::FailedWrite(MojoResult(17))));
    assert!(MojoResult(0).is_okay());
    assert!(!MojoResult(3).is_okay());
}

#[test]
fn response_is_made_of_what_was_read() {
    let service = Service { pipe: MessageEndpoint { native: 1 }, version: 2 };
    let message = service.create_request(12, Ping { value: 34 });
    assert_eq!(
        <Service as MojomInterfaceRecv>::recv_response(Ok(message)),
        Ok((12, Incoming::Ping(Ping { value: 34 })))
    );
    assert_eq!(
        <Service as MojomInterfaceRecv>::recv_response(Err(MojoResult(9))),
        Err(MojomRecvError::FailedRead(MojoResult(9)))
    );
}

#[test]
fn response_with_a_header_that_is_refused_fails_validation() {
    assert_eq!(
        <Service as MojomInterfaceRecv>::recv_response(Ok((vec![0u8; 4], Vec::new()))),
        Err(MojomRecvError::FailedValidation(ValidationError::IllegalPointer))
    );
    let service = Service { pipe: MessageEndpoint { native: 1 }, version: 2 };
    let (mut buffer, handles) = service.create_request(12, Ping { value: 34 });
    buffer[36] = 9;
    assert_eq!(
        <Service as MojomInterfaceRecv>::recv_response(Ok((buffer, handles))),
        Err(MojomRecvError::FailedValidation(ValidationError::UnexpectedStructHeader))
    );
}

#[test]
fn message_of_an_unknown_name_is_refused_by_the_container() {
    let (mut buffer, _) = MessageHeader::new(77, 0).auto_serialize();
    buffer.extend_from_slice(&[16, 0, 0, 0, 0, 0, 0, 0, 0, 0, 0, 0, 0, 0, 0, 0]);
    assert_eq!(
        Incoming::decode_message(buffer, Vec::new()),
        Err(ValidationError::UnexpectedStructHeader)
    );
}

#[test]
fn interface_is_a_handle_index_and_a_version() {
    let offer = Offer {
        service: Service { pipe: MessageEndpoint { native: 11 }, version: 4 },
        spare: None,
    };
    let (buffer, handles) = offer.auto_serialize();
    assert_eq!(
        buffer,
        vec![
            24, 0, 0, 0, 0, 0, 0, 0, 0, 0, 0, 0, 4, 0, 0, 0, 0xFF, 0xFF, 0xFF, 0xFF, 0, 0, 0, 0,
        ]
    );
    assert_eq!(handles.len(), 1);
    assert_eq!(handles[0].native, 11);
    assert_eq!(
        Offer::deserialize(&buffer, handles),
        Ok(Offer {
            service: Service { pipe: MessageEndpoint { native: 11 }, version: 4 },
            spare: None,
        })
    );
}

#[test]
fn null_interface_where_an_interface_must_be_is_refused() {
    let offer = Offer {
        service: Service { pipe: MessageEndpoint { native: 11 }, version: 4 },
        spare: Some(Service { pipe: MessageEndpoint { native: 12 }, version: 5 }),
    };
    let (mut buffer, handles) = offer.auto_serialize();
    assert_eq!(&buffer[16..24], &[1, 0, 0, 0, 5, 0, 0, 0]);
    for byte in &mut buffer[8..12] {
        *byte = 0xFF;
    }
    assert_eq!(Offer::deserialize(&buffer, handles), Err(ValidationError::UnexpectedNullPointer));
}

#[test]
fn interface_whose_handle_is_no_message_pipe_is_refused() {
    let offer = Offer {
        service: Service { pipe: MessageEndpoint { native: 11 }, version: 4 },
        spare: None,
    };
    let (buffer, _) = offer.auto_serialize();
    let other = vec![mojo_bindings::system::acquire(11)];
    assert_eq!(Offer::deserialize(&buffer, other), Err(ValidationError::IllegalHandle));
}

#[test]
fn service_names_itself() {
    assert_eq!(Service::service_name(), "test::Service");
}
